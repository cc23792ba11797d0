//! What the translucent fill that is found has over every other that was measured.

use crate::color::Rgba;
use crate::order::{is_least, is_stable_order, key_before, lemma_key_total, stable_before};
use crate::scalar::Scalar;
use crate::search::overlay::{
    any_fill, best_pick, frontier_keys, group_picks, highest_pick, is_ranked_list,
    lemma_picks_unique, lists_ranked, pairing_fills, ranked_keys, without_repeats,
    effort_fill_keys, fill_key, fill_keys, is_best_fill, is_highest, is_least_effort,
    is_tried_alpha, lists_alphas, FillCandidate, FillFacts, FillLimits,
};
use crate::search::pair_rank::prefix_of;
use crate::search::rank_laws::{ahead, leads, lemma_key_leads, lemma_least_leads};
use vstd::prelude::*;

verus! {

/// Whether the hex text of the first fill is that of the second or comes before it.
pub open spec fn hex_ahead(one: Rgba, other: Rgba) -> bool {
    one == other || one.hex_less(other)
}

/// How far the two fills are from what is preferred, or from the background where nothing
/// is, and then what breaks the tie.
pub open spec fn presents_better(
    limits: FillLimits,
    one: FillFacts,
    other: FillFacts,
    tie: bool,
) -> bool {
    if limits.has_preference {
        ahead(one.totals.preference_distance, other.totals.preference_distance, tie)
    } else {
        ahead(one.totals.final_distance, other.totals.final_distance, tie)
    }
}

/// Whether the first fill keeps more of the chroma, then is more opaque, then comes first.
pub open spec fn is_stronger(one: FillFacts, other: FillFacts) -> bool {
    ahead(
        one.totals.lost_retention,
        other.totals.lost_retention,
        ahead(
            one.totals.lost_alpha,
            other.totals.lost_alpha,
            hex_ahead(one.emitted, other.emitted),
        ),
    )
}

/// Whether the first fill suits better. Where the source matters most: it moves the seed
/// less, then exceeds its contrast less, then presents better. Otherwise: it presents
/// better, then exceeds its contrast less, then moves the seed less. Then it is stronger.
pub open spec fn fill_suits(limits: FillLimits, one: FillFacts, other: FillFacts) -> bool {
    if limits.prefer_source_fidelity {
        ahead(
            one.totals.distance,
            other.totals.distance,
            ahead(
                one.totals.overshoot,
                other.totals.overshoot,
                presents_better(limits, one, other, is_stronger(one, other)),
            ),
        )
    } else {
        presents_better(
            limits,
            one,
            other,
            ahead(
                one.totals.overshoot,
                other.totals.overshoot,
                ahead(one.totals.distance, other.totals.distance, is_stronger(one, other)),
            ),
        )
    }
}

/// The last two components of the key of a fill order equal ranks as hex texts.
proof fn lemma_hex_tail(one: FillCandidate, other: FillCandidate)
    requires
        one.rank@.len() == other.rank@.len(),
        leads(fill_key(one), fill_key(other), one.rank@.len() as int),
    ensures
        hex_ahead(one.emitted, other.emitted),
{
    reveal_with_fuel(leads, 3);
    let count = one.rank@.len() as int;
    assert(fill_key(one)[count] == one.emitted.rgb().packed());
    assert(fill_key(other)[count] == other.emitted.rgb().packed());
}

/// A rank that leads suits.
proof fn lemma_rank_suits(
    limits: FillLimits,
    facts: FillFacts,
    others: FillFacts,
    one: FillCandidate,
    other: FillCandidate,
)
    requires
        limits.is_evaluation(facts, Some(one)),
        limits.is_evaluation(others, Some(other)),
        leads(fill_key(one), fill_key(other), 0),
    ensures
        fill_suits(limits, facts, others),
{
    reveal_with_fuel(leads, 8);
    let left = fill_key(one);
    let right = fill_key(other);
    assert(left[0] == right[0] && left[1] == right[1]);
    assert(left[6] == facts.totals.lost_alpha.place());
    assert(right[6] == others.totals.lost_alpha.place());
    if leads(left, right, 7) {
        lemma_hex_tail(one, other);
    }
}

/// Whether `fills` are the evaluations of the fills that were measured in one pass.
pub open spec fn are_evaluations(
    limits: FillLimits,
    facts: Seq<FillFacts>,
    fills: Seq<Option<FillCandidate>>,
) -> bool {
    &&& fills.len() == facts.len()
    &&& forall|i: int|
        0 <= i < fills.len() ==> limits.is_evaluation(facts[i], #[trigger] fills[i])
}

/// The fill that is found is feasible and suits best of the feasible ones that were measured
/// in the same pass. Where the source matters most, none moves the seed less; otherwise none
/// comes nearer to what is preferred or, where nothing is, to the background.
pub proof fn lemma_found_fill_suits_best(
    limits: FillLimits,
    facts: Seq<FillFacts>,
    fills: Seq<Option<FillCandidate>>,
    color: Rgba,
)
    requires
        are_evaluations(limits, facts, fills),
        is_best_fill(fills, color),
    ensures
        exists|i: int|
            {
                &&& 0 <= i < facts.len()
                &&& limits.admits(#[trigger] facts[i])
                &&& facts[i].emitted == color
                &&& forall|j: int|
                    0 <= j < facts.len() && limits.admits(#[trigger] facts[j]) ==> {
                        let one = facts[i].totals;
                        let other = facts[j].totals;
                        &&& limits.prefer_source_fidelity ==> one.distance.place()
                            <= other.distance.place()
                        &&& !limits.prefer_source_fidelity && limits.has_preference
                            ==> one.preference_distance.place() <= other.preference_distance.place()
                        &&& !limits.prefer_source_fidelity && !limits.has_preference
                            ==> one.final_distance.place() <= other.final_distance.place()
                        &&& fill_suits(limits, facts[i], facts[j])
                    }
            },
{
    let keys = fill_keys(fills);
    let at = choose|i: int| #[trigger] is_least(keys, i) && fills[i]->0.emitted == color;
    assert(keys[at] is Some);
    assert(fills[at] is Some);
    assert(limits.is_evaluation(facts[at], fills[at]));
    assert forall|j: int| 0 <= j < facts.len() && limits.admits(#[trigger] facts[j]) implies {
        let one = facts[at].totals;
        let other = facts[j].totals;
        &&& limits.prefer_source_fidelity ==> one.distance.place() <= other.distance.place()
        &&& !limits.prefer_source_fidelity && limits.has_preference
            ==> one.preference_distance.place() <= other.preference_distance.place()
        &&& !limits.prefer_source_fidelity && !limits.has_preference
            ==> one.final_distance.place() <= other.final_distance.place()
        &&& fill_suits(limits, facts[at], facts[j])
    } by {
        assert(limits.is_evaluation(facts[j], fills[j]));
        assert(keys[j] == Some(fill_key(fills[j]->0)));
        lemma_least_leads(keys, at, j);
        lemma_rank_suits(limits, facts[at], facts[j], fills[at]->0, fills[j]->0);
    }
    assert(limits.admits(facts[at]));
}

/// Whether the first fill misses the hard limits less, then exceeds the ceilings less, then
/// suits better.
pub open spec fn fill_misses_less(limits: FillLimits, one: FillFacts, other: FillFacts) -> bool {
    ahead(
        one.totals.hard_deficit,
        other.totals.hard_deficit,
        ahead(
            one.totals.ceiling_excess,
            other.totals.ceiling_excess,
            if limits.prefer_source_fidelity {
                ahead(
                    one.totals.distance,
                    other.totals.distance,
                    presents_better(
                        limits,
                        one,
                        other,
                        ahead(
                            one.totals.overshoot,
                            other.totals.overshoot,
                            is_stronger(one, other),
                        ),
                    ),
                )
            } else {
                fill_suits(limits, one, other)
            },
        ),
    )
}

/// Whether `fills` are the fills that were measured in one pass, ranked by what they miss.
pub open spec fn are_efforts(
    limits: FillLimits,
    facts: Seq<FillFacts>,
    fills: Seq<FillCandidate>,
) -> bool {
    &&& fills.len() == facts.len()
    &&& forall|i: int| 0 <= i < fills.len() ==> limits.is_effort(facts[i], #[trigger] fills[i])
}

/// The fill of the best effort misses the limits no further than any fill of the source or
/// of the table.
pub proof fn lemma_effort_fill_misses_least(
    limits: FillLimits,
    facts: Seq<FillFacts>,
    source: Seq<FillCandidate>,
    table: Seq<FillCandidate>,
    color: Rgba,
)
    requires
        are_efforts(limits, facts, source + table),
        is_least_effort(source, table, color),
    ensures
        exists|i: int|
            {
                &&& 0 <= i < facts.len()
                &&& (#[trigger] facts[i]).emitted == color
                &&& forall|j: int|
                    0 <= j < facts.len() ==> {
                        &&& facts[i].totals.hard_deficit.place() <= (
                        #[trigger] facts[j]).totals.hard_deficit.place()
                        &&& fill_misses_less(limits, facts[i], facts[j])
                    }
            },
{
    let fills = source + table;
    let keys = effort_fill_keys(fills);
    let at = choose|i: int| #[trigger] is_least(keys, i) && fills[i].emitted == color;
    assert(limits.is_effort(facts[at], fills[at]));
    assert forall|j: int| 0 <= j < facts.len() implies {
        &&& facts[at].totals.hard_deficit.place() <= (
        #[trigger] facts[j]).totals.hard_deficit.place()
        &&& fill_misses_less(limits, facts[at], facts[j])
    } by {
        assert(limits.is_effort(facts[j], fills[j]));
        let left = fill_key(fills[at]);
        let right = fill_key(fills[j]);
        assert(keys[at] == Some(left));
        assert(keys[j] == Some(right));
        lemma_least_leads(keys, at, j);
        reveal_with_fuel(leads, 8);
        assert(left[6] == facts[at].totals.lost_alpha.place());
        assert(right[6] == facts[j].totals.lost_alpha.place());
        if leads(left, right, 7) {
            lemma_hex_tail(fills[at], fills[j]);
        }
    }
    assert(facts[at].emitted == color);
}

/// Whether every flag is set.
pub open spec fn all_set(flags: Seq<bool>) -> bool {
    forall|i: int| 0 <= i < flags.len() ==> #[trigger] flags[i]
}

/// A feasible fill keeps on every background the contrast and the distance to it, between
/// their bounds, those to every reference, and the readability of every foreground; at its
/// runtime opacity, where it has one, it keeps them too; and it keeps the foregrounds
/// readable on every further background. A fill that does all this is feasible.
pub proof fn lemma_feasible_fills(limits: FillLimits, facts: FillFacts)
    ensures
        limits.admits(facts) <==> {
            &&& forall|i: int|
                0 <= i < facts.scenes@.len() ==> {
                    let scene = #[trigger] facts.scenes@[i];
                    &&& scene.contrast_met && all_set(scene.references_met@) && all_set(
                        scene.foregrounds_met@,
                    )
                    &&& !scene.ratio.less(limits.minimum_contrast)
                    &&& limits.maximum_contrast matches Some(maximum) ==> !maximum.less(scene.ratio)
                    &&& !scene.distance.less(limits.minimum_distance)
                    &&& limits.maximum_distance matches Some(maximum) ==> !maximum.less(
                        scene.distance,
                    )
                    &&& forall|k: int|
                        0 <= k < scene.reference_distances@.len() && k
                            < limits.reference_distances@.len()
                            ==> !(#[trigger] scene.reference_distances@[k]).less(
                            limits.reference_distances@[k],
                        )
                    &&& scene.runtime matches Some(runtime) ==> {
                        &&& runtime.target_met && all_set(runtime.references_met@) && all_set(
                            runtime.background_steps_met@,
                        ) && all_set(runtime.foregrounds_met@)
                        &&& !runtime.adjusted_ratio.less(limits.minimum_contrast)
                        &&& !runtime.distance.less(limits.runtime_distance)
                        &&& forall|k: int|
                            0 <= k < runtime.reference_distances@.len() && k
                                < limits.runtime_reference_distances@.len()
                                ==> !(#[trigger] runtime.reference_distances@[k]).less(
                                limits.runtime_reference_distances@[k],
                            )
                    }
                }
            &&& forall|i: int|
                0 <= i < facts.readability@.len() ==> all_set(
                    (#[trigger] facts.readability@[i]).foregrounds_met@,
                ) && all_set(facts.readability@[i].runtime_foregrounds_met@)
        },
{
}

/// The fill with the highest alpha is the last that is feasible, so among fills that were
/// tried with rising alphas none that is feasible is more opaque.
pub proof fn lemma_highest_fill_is_most_opaque(
    limits: FillLimits,
    facts: Seq<FillFacts>,
    fills: Seq<Option<FillCandidate>>,
    position: int,
)
    requires
        are_evaluations(limits, facts, fills),
        is_highest(fills, position),
        forall|i: int, j: int|
            0 <= i < j < facts.len() ==> (#[trigger] facts[i]).emitted.a < (
            #[trigger] facts[j]).emitted.a,
    ensures
        limits.admits(facts[position]),
        forall|j: int|
            0 <= j < facts.len() && limits.admits(#[trigger] facts[j]) ==> facts[j].emitted.a
                <= facts[position].emitted.a,
{
    assert(limits.is_evaluation(facts[position], fills[position]));
    assert forall|j: int|
        0 <= j < facts.len() && limits.admits(#[trigger] facts[j]) implies facts[j].emitted.a
        <= facts[position].emitted.a by {
        assert(limits.is_evaluation(facts[j], fills[j]));
        assert(fills[j] is Some);
    }
}

/// The alphas that are tried rise, lie between the bounds, and end with the upper one unless
/// nothing would be seen of it; the lower one is tried too unless it is above the upper one.
pub proof fn lemma_tried_alphas(minimum: u8, maximum: u8, values: Seq<u8>)
    requires
        lists_alphas(minimum, maximum, values),
    ensures
        forall|i: int, j: int| 0 <= i < j < values.len() ==> #[trigger] values[i] < #[trigger] values[j],
        forall|i: int|
            0 <= i < values.len() ==> (#[trigger] values[i]) <= maximum && (values[i] >= minimum
                || values[i] == maximum),
        maximum > 0 ==> values.len() > 0 && values.last() == maximum,
        minimum <= maximum ==> values.len() > 0 && values[0] == minimum,
        forall|step: int|
            2 <= step <= 20 && minimum <= #[trigger] ((step * 255 + 10) / 20) <= maximum
                ==> values.contains(((step * 255 + 10) / 20) as u8),
{
    assert forall|step: int|
        2 <= step <= 20 && minimum <= #[trigger] ((step * 255 + 10) / 20)
            <= maximum implies values.contains(((step * 255 + 10) / 20) as u8) by {
        let alpha = ((step * 255 + 10) / 20) as u8;
        assert(alpha == (#[trigger] (step * 255) + 10) / 20);
        assert(is_tried_alpha(minimum, maximum, alpha as int));
    }
    if maximum > 0 {
        assert(is_tried_alpha(minimum, maximum, maximum as int));
        let at = choose|i: int| 0 <= i < values.len() && values[i] == maximum;
        assert(values[values.len() - 1] == maximum) by {
            if at < values.len() - 1 {
                assert(values[at] < values[values.len() - 1]);
                assert(is_tried_alpha(
                    minimum,
                    maximum,
                    values[values.len() - 1] as int,
                ));
            }
        }
    }
    if minimum <= maximum {
        assert(is_tried_alpha(minimum, maximum, minimum as int));
        let at = choose|i: int| 0 <= i < values.len() && values[i] == minimum;
        assert(values[0] == minimum) by {
            if at > 0 {
                assert(values[0] < values[at]);
                assert(is_tried_alpha(minimum, maximum, values[0] as int));
            }
        }
    }
}

proof fn lemma_group_is_picked(groups: Seq<Vec<Option<FillCandidate>>>, at: int)
    requires
        0 <= at < groups.len(),
        any_fill(groups[at]@),
    ensures
        group_picks(groups).contains(best_pick(groups[at]@)),
        group_picks(groups).contains(highest_pick(groups[at]@)),
    decreases groups.len(),
{
    let earlier = group_picks(groups.drop_last());
    let all = group_picks(groups);
    if at < groups.len() - 1 {
        assert(groups.drop_last()[at] == groups[at]);
        lemma_group_is_picked(groups.drop_last(), at);
        let best = choose|i: int| 0 <= i < earlier.len() && earlier[i] == best_pick(groups[at]@);
        let highest = choose|i: int|
            0 <= i < earlier.len() && earlier[i] == highest_pick(groups[at]@);
        assert(all[best] == best_pick(groups[at]@));
        assert(all[highest] == highest_pick(groups[at]@));
    } else {
        assert(groups.last() == groups[at]);
        assert(all[earlier.len() as int] == best_pick(groups[at]@));
        assert(all[earlier.len() as int + 1] == highest_pick(groups[at]@));
    }
}

/// Of every color that was tried, the best fill and the most opaque one are paired, and of the
/// source the best fill.
pub proof fn lemma_gathered_fills(
    groups: Seq<Vec<Option<FillCandidate>>>,
    source: Seq<Option<FillCandidate>>,
    at: int,
    best: int,
    highest: int,
    own: int,
)
    requires
        0 <= at < groups.len(),
        is_least(fill_keys(groups[at]@), best),
        is_highest(groups[at]@, highest),
    ensures
        pairing_fills(groups, source).contains(groups[at]@[best]->0@),
        pairing_fills(groups, source).contains(groups[at]@[highest]->0@),
        is_least(fill_keys(source), own) ==> pairing_fills(groups, source).contains(source[own]->0@),
{
    lemma_picks_unique(groups[at]@, best, highest);
    lemma_group_is_picked(groups, at);
    let picks = group_picks(groups);
    let all = pairing_fills(groups, source);
    let first = choose|i: int| 0 <= i < picks.len() && picks[i] == best_pick(groups[at]@);
    let last = choose|i: int| 0 <= i < picks.len() && picks[i] == highest_pick(groups[at]@);
    assert(all[first] == picks[first] && all[last] == picks[last]);
    if is_least(fill_keys(source), own) {
        assert(fill_keys(source)[own] is Some);
        assert(source[own] is Some);
        let top = lemma_some_is_highest(source, own, source.len() as int);
        lemma_picks_unique(source, own, top);
        assert(all[picks.len() as int] == best_pick(source));
    }
}

proof fn lemma_some_is_highest(fills: Seq<Option<FillCandidate>>, at: int, end: int) -> (top: int)
    requires
        0 <= at < end <= fills.len(),
        fills[at] is Some,
        forall|i: int| end <= i < fills.len() ==> (#[trigger] fills[i]) is None,
    ensures
        is_highest(fills, top),
    decreases end,
{
    if fills[end - 1] is Some {
        end - 1
    } else {
        lemma_some_is_highest(fills, at, end - 1)
    }
}

/// The fills of a frontier that are to be paired miss nothing and come best first by the part of
/// their ranks that pairing adds up.
pub proof fn lemma_ranked_frontier(
    candidates: Seq<FillCandidate>,
    kept: Seq<usize>,
    slack: Scalar,
    listed: Seq<usize>,
    first: int,
    second: int,
)
    requires
        lists_ranked(candidates, kept, slack, listed),
        forall|i: int|
            0 <= i < kept.len() ==> candidates[(#[trigger] kept[i]) as int].rank@.len() >= 5,
        0 <= first < second < listed.len(),
    ensures
        kept.contains(listed[first]),
        ({
            let one = prefix_of(candidates[listed[first] as int].rank@, slack);
            let other = prefix_of(candidates[listed[second] as int].rank@, slack);
            ahead(
                one[0],
                other[0],
                ahead(one[1], other[1], one[2].place() <= other[2].place()),
            )
        }),
{
    let keys = frontier_keys(candidates, kept, slack);
    let order = choose|order: Seq<usize>|
        {
            &&& #[trigger] is_stable_order(keys, order)
            &&& listed == order.map_values(|at: usize| kept[at as int])
        };
    let left = order[first] as int;
    let right = order[second] as int;
    assert(stable_before(keys, left, right));
    assert(listed[first] == kept[left] && listed[second] == kept[right]);
    lemma_key_total(keys[left], keys[right]);
    lemma_key_leads(keys[left], keys[right]);
    reveal_with_fuel(leads, 4);
}

/// Ranked fills come by rank, and none has the color of the one before it.
pub proof fn lemma_ranked_list_has_no_repeats(
    candidates: Seq<FillCandidate>,
    kept: Seq<usize>,
    index: int,
)
    requires
        is_ranked_list(candidates, kept),
        0 < index < kept.len(),
    ensures
        candidates[kept[index - 1] as int].emitted != candidates[kept[index] as int].emitted,
        !key_before(
            fill_key(candidates[kept[index] as int]),
            fill_key(candidates[kept[index - 1] as int]),
        ),
{
    let order = choose|order: Seq<usize>|
        {
            &&& #[trigger] is_stable_order(ranked_keys(candidates), order)
            &&& kept == without_repeats(candidates, order)
        };
    let places = lemma_kept_places(candidates, order);
    let left = order[places[index - 1]];
    let right = order[places[index]];
    assert(places[index - 1] < places[index]);
    let keys = ranked_keys(candidates);
    assert(stable_before(keys, left as int, right as int));
    lemma_key_total(keys[left as int], keys[right as int]);
}

proof fn lemma_kept_places(candidates: Seq<FillCandidate>, order: Seq<usize>) -> (places: Seq<int>)
    ensures
        ({
            let kept = without_repeats(candidates, order);
            &&& places.len() == kept.len()
            &&& forall|i: int|
                0 <= i < kept.len() ==> 0 <= #[trigger] places[i] < order.len() && order[places[i]]
                    == kept[i]
            &&& forall|i: int, j: int|
                0 <= i < j < kept.len() ==> #[trigger] places[i] < #[trigger] places[j]
            &&& forall|i: int|
                0 < i < kept.len() ==> candidates[kept[i - 1] as int].emitted != candidates[(
                #[trigger] kept[i]) as int].emitted
        }),
    decreases order.len(),
{
    if order.len() == 0 {
        Seq::empty()
    } else {
        let shorter = order.drop_last();
        let before = lemma_kept_places(candidates, shorter);
        let earlier = without_repeats(candidates, shorter);
        let kept = without_repeats(candidates, order);
        assert forall|i: int| 0 <= i < earlier.len() implies order[#[trigger] before[i]]
            == earlier[i] by {
            assert(shorter[before[i]] == earlier[i]);
        }
        if kept.len() == earlier.len() {
            before
        } else {
            let places = before.push(order.len() - 1);
            assert forall|i: int| 0 < i < kept.len() implies candidates[kept[i - 1] as int].emitted
                != candidates[(#[trigger] kept[i]) as int].emitted by {
                if i < earlier.len() {
                    assert(kept[i] == earlier[i] && kept[i - 1] == earlier[i - 1]);
                } else {
                    assert(kept[i - 1] == earlier.last());
                }
            }
            places
        }
    }
}

} // verus!
