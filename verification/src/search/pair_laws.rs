//! What the pair that is fitted has over every other that could have been.

use crate::color::Rgb24;
use crate::constants::{semantic_pair_contract, syntax_diff_contract, PairContract};
use crate::order::{
    is_stable_order, key_before, lemma_key_total, lemma_stable_order_covers, stable_before,
};
use crate::scalar::Scalar;
use crate::search::overlay::{
    feasible_pair_key, is_chromatic, is_fallback_choice, is_frontier_choice, is_overlay_pair,
    opacity_keys, salience_keys, FillCandidate, OverlayPair,
};
use crate::search::pair::{
    apart, clearance, is_effort_choice, is_farthest, is_pair_choice, is_partner, is_spread,
    keeps_least_deficit, kept_keys, lists_flagged, measured, orders_flagged, own_flags,
    pair_key, PairCandidate, PairFacts, PairLimits, PairSeparation,
};
use crate::search::pair_rank::{prefix_of, ColorPairTotals, FillPairTotals};
use crate::search::rank_laws::{ahead, leads, lemma_key_leads};
use crate::search::scan::is_least_pair;
use vstd::prelude::*;

verus! {

/// A pair keeps its floors exactly where its colors stand apart in contrast, in distance for
/// normal and for color-deficient eyes, and in lightness, and where either the contrast or
/// both distances of the alternative are reached, if there is one.
pub proof fn lemma_pair_floors(limits: PairLimits, pair: PairSeparation)
    ensures
        limits.met(pair) <==> {
            &&& limits.contrast.at_most(pair.contrast)
            &&& limits.normal.at_most(pair.normal)
            &&& limits.cvd.at_most(pair.cvd)
            &&& limits.lightness.at_most(pair.lightness)
            &&& limits.alternative matches Some((contrast, normal, cvd)) ==> contrast.at_most(
                pair.contrast,
            ) || (normal.at_most(pair.normal) && cvd.at_most(pair.cvd))
        },
{
}

/// Whether the first pair is nearer to its backgrounds, where they are preferred, then moves
/// its seeds less, then is richer, then moves its first seed less.
pub open spec fn pair_suits(
    prefer_background: bool,
    one: ColorPairTotals,
    other: ColorPairTotals,
    tie: bool,
) -> bool {
    let moved = ahead(
        one.transform,
        other.transform,
        ahead(
            one.lost_retention,
            other.lost_retention,
            ahead(one.first_distance, other.first_distance, tie),
        ),
    );
    if prefer_background {
        ahead(one.background, other.background, moved)
    } else {
        moved
    }
}

/// Whether the first pair of colors has the smaller numbers.
pub open spec fn colors_ahead(one: (Rgb24, Rgb24), other: (Rgb24, Rgb24)) -> bool {
    one.0.packed() < other.0.packed() || (one.0.packed() == other.0.packed() && one.1.packed()
        <= other.1.packed())
}

/// The pair that is fitted keeps every floor. Each first color is tried with the first partner
/// with which it does, and no such pair suits better: none is nearer to its backgrounds where
/// they are preferred, and otherwise none moves its seeds less.
pub proof fn lemma_fitted_pair_suits_best<F: Fn(usize, usize) -> PairFacts>(
    measure: &F,
    limits: PairLimits,
    first: Seq<Rgb24>,
    second: Seq<Rgb24>,
    prefer_background: bool,
    found: (usize, usize),
    totals: ColorPairTotals,
    other: (usize, usize),
    others: ColorPairTotals,
)
    requires
        is_pair_choice(measure, limits, first, second, found.0, found.1),
        measured(measure, found.0, found.1).rank@ == totals.rank(prefer_background),
        other.0 < first.len(),
        is_partner(measure, limits, second, other.0, other.1),
        measured(measure, other.0, other.1).rank@ == others.rank(prefer_background),
    ensures
        limits.met(measured(measure, found.0, found.1).separation),
        prefer_background ==> totals.background.place() <= others.background.place(),
        !prefer_background ==> totals.transform.place() <= others.transform.place(),
        pair_suits(
            prefer_background,
            totals,
            others,
            colors_ahead(
                (first[found.0 as int], second[found.1 as int]),
                (first[other.0 as int], second[other.1 as int]),
            ),
        ),
{
    let left = pair_key(
        totals.rank(prefer_background),
        first[found.0 as int],
        second[found.1 as int],
    );
    let right = pair_key(
        others.rank(prefer_background),
        first[other.0 as int],
        second[other.1 as int],
    );
    assert(!key_before(right, left));
    lemma_key_leads(left, right);
    reveal_with_fuel(leads, 7);
    assert(left[4] == first[found.0 as int].packed() && right[4]
        == first[other.0 as int].packed());
}

/// Of every first color the partner is the first one with which the pair keeps its floors.
pub proof fn lemma_partner_is_first<F: Fn(usize, usize) -> PairFacts>(
    measure: &F,
    limits: PairLimits,
    second: Seq<Rgb24>,
    left: usize,
    right: usize,
    earlier: usize,
)
    requires
        is_partner(measure, limits, second, left, right),
        earlier < right,
    ensures
        right < second.len(),
        limits.met(measured(measure, left, right).separation),
        !limits.met(measured(measure, left, earlier).separation),
{
}

/// Whether the first pair misses the limits of its colors less, then its separation less, then
/// is nearer to its backgrounds, where they are preferred, then moves its seeds less, then is
/// richer.
pub open spec fn pair_misses_less(
    prefer_background: bool,
    one: ColorPairTotals,
    other: ColorPairTotals,
    tie: bool,
) -> bool {
    let moved = ahead(
        one.transform,
        other.transform,
        ahead(one.lost_retention, other.lost_retention, tie),
    );
    ahead(
        one.own_deficit,
        other.own_deficit,
        ahead(
            one.pair_deficit,
            other.pair_deficit,
            if prefer_background {
                ahead(one.background, other.background, moved)
            } else {
                moved
            },
        ),
    )
}

/// The pair of the best effort misses no more than any other.
pub proof fn lemma_effort_pair_misses_least<F: Fn(usize, usize) -> PairFacts>(
    measure: &F,
    first: Seq<Rgb24>,
    second: Seq<Rgb24>,
    prefer_background: bool,
    found: (usize, usize),
    totals: ColorPairTotals,
    other: (usize, usize),
    others: ColorPairTotals,
)
    requires
        is_effort_choice(measure, first, second, found.0, found.1),
        measured(measure, found.0, found.1).effort@ == totals.effort(prefer_background),
        other.0 < first.len(),
        other.1 < second.len(),
        measured(measure, other.0, other.1).effort@ == others.effort(prefer_background),
    ensures
        totals.own_deficit.place() <= others.own_deficit.place(),
        pair_misses_less(
            prefer_background,
            totals,
            others,
            colors_ahead(
                (first[found.0 as int], second[found.1 as int]),
                (first[other.0 as int], second[other.1 as int]),
            ),
        ),
{
    let left = pair_key(
        totals.effort(prefer_background),
        first[found.0 as int],
        second[found.1 as int],
    );
    let right = pair_key(
        others.effort(prefer_background),
        first[other.0 as int],
        second[other.1 as int],
    );
    assert(!key_before(right, left));
    lemma_key_leads(left, right);
    reveal_with_fuel(leads, 8);
    assert(left[5] == first[found.0 as int].packed() && right[5]
        == first[other.0 as int].packed());
}

/// Whether the first candidate misses less, then is nearer to the background, where that is
/// preferred, then moves its seed less, then is richer, then has the smaller number.
pub open spec fn candidate_suits(
    prefer_background: bool,
    one: PairCandidate,
    other: PairCandidate,
) -> bool {
    let moved = ahead(
        one.distance,
        other.distance,
        ahead(
            one.lost_retention,
            other.lost_retention,
            one.color.packed() <= other.color.packed(),
        ),
    );
    ahead(
        one.deficit,
        other.deficit,
        if prefer_background {
            ahead(one.background_distance, other.background_distance, moved)
        } else {
            moved
        },
    )
}

/// Candidates of a pair come best first, each of them once.
pub proof fn lemma_candidates_come_best_first(
    candidates: Seq<PairCandidate>,
    flagged: Seq<bool>,
    prefer_background: bool,
    order: Seq<usize>,
    first: int,
    second: int,
)
    requires
        orders_flagged(candidates, flagged, prefer_background, order),
        flagged.len() == candidates.len(),
        0 <= first < second < order.len(),
    ensures
        order[first] != order[second],
        flagged[order[first] as int] && flagged[order[second] as int],
        candidate_suits(
            prefer_background,
            candidates[order[first] as int],
            candidates[order[second] as int],
        ),
{
    let (kept, places) = choose|kept: Seq<usize>, places: Seq<usize>|
        {
            &&& #[trigger] lists_flagged(flagged, kept)
            &&& #[trigger] is_stable_order(kept_keys(candidates, kept, prefer_background), places)
            &&& order == places.map_values(|place: usize| kept[place as int])
        };
    let keys = kept_keys(candidates, kept, prefer_background);
    assert(stable_before(keys, places[first] as int, places[second] as int));
    assert(order[first] == kept[places[first] as int]);
    assert(order[second] == kept[places[second] as int]);
    let left = keys[places[first] as int];
    let right = keys[places[second] as int];
    lemma_key_total(left, right);
    assert(!key_before(right, left));
    lemma_key_leads(left, right);
    reveal_with_fuel(leads, 6);
}

/// Exactly the candidates are feasible that miss none of their own constraints, and all of
/// them together, by more than the slack.
pub proof fn lemma_feasible_candidates(slack: Scalar, candidates: Seq<PairCandidate>, index: int)
    requires
        0 <= index < candidates.len(),
    ensures
        own_flags(slack, candidates)[index] <==> {
            &&& forall|i: int|
                0 <= i < candidates[index].shortfalls@.len() ==> !slack.less(
                    #[trigger] candidates[index].shortfalls@[i],
                )
            &&& !slack.less(candidates[index].deficit)
        },
{
}

/// Every feasible candidate is listed.
pub proof fn lemma_feasible_candidates_are_listed(
    candidates: Seq<PairCandidate>,
    flagged: Seq<bool>,
    prefer_background: bool,
    order: Seq<usize>,
    index: int,
)
    requires
        orders_flagged(candidates, flagged, prefer_background, order),
        0 <= index < flagged.len() <= usize::MAX,
        flagged[index],
    ensures
        order.contains(index as usize),
{
    let (kept, places) = choose|kept: Seq<usize>, places: Seq<usize>|
        {
            &&& #[trigger] lists_flagged(flagged, kept)
            &&& #[trigger] is_stable_order(kept_keys(candidates, kept, prefer_background), places)
            &&& order == places.map_values(|place: usize| kept[place as int])
        };
    let keys = kept_keys(candidates, kept, prefer_background);
    let at = choose|k: int| 0 <= k < kept.len() && kept[k] == index as usize;
    lemma_stable_order_covers(keys, places, at);
    let place = choose|i: int| 0 <= i < places.len() && #[trigger] places[i] == at;
    assert(order[place] == index as usize);
}

proof fn lemma_clearance<F: Fn(usize, usize) -> Scalar>(
    distance: F,
    selected: Seq<usize>,
    position: usize,
)
    requires
        forall|i: int|
            0 <= i < selected.len() ==> !apart(
                distance,
                #[trigger] selected[i],
                position,
            ).is_nan_view(),
    ensures
        !clearance(distance, selected, position).is_nan_view(),
        forall|i: int|
            0 <= i < selected.len() ==> clearance(distance, selected, position).at_most(
                apart(distance, #[trigger] selected[i], position),
            ),
        selected.len() > 0 ==> exists|i: int|
            0 <= i < selected.len() && apart(distance, #[trigger] selected[i], position).at_most(
                clearance(distance, selected, position),
            ),
    decreases selected.len(),
{
    if selected.len() > 0 {
        let shorter = selected.drop_last();
        assert forall|i: int| 0 <= i < shorter.len() implies !apart(
            distance,
            #[trigger] shorter[i],
            position,
        ).is_nan_view() by {
            assert(shorter[i] == selected[i]);
        }
        lemma_clearance(distance, shorter, position);
        let held = clearance(distance, shorter, position);
        let last = apart(distance, selected[selected.len() - 1], position);
        let all = clearance(distance, selected, position);
        assert(all.at_most(last) && all.at_most(held));
        assert forall|i: int| 0 <= i < selected.len() implies all.at_most(
            apart(distance, #[trigger] selected[i], position),
        ) by {
            if i < shorter.len() {
                assert(held.at_most(apart(distance, shorter[i], position)));
            }
        }
        if all == last {
            assert(apart(distance, selected[selected.len() - 1], position).at_most(all));
        } else {
            if shorter.len() > 0 {
                let at = choose|i: int|
                    0 <= i < shorter.len() && apart(
                        distance,
                        #[trigger] shorter[i],
                        position,
                    ).at_most(held);
                assert(apart(distance, selected[at], position).at_most(all));
            } else {
                assert(last.at_most(all));
                assert(apart(distance, selected[selected.len() - 1], position).at_most(all));
            }
        }
    }
}

/// Colors are ordered so that each stands as far as it can from those before it: of a color
/// that comes later, some earlier color is no farther away than any earlier color is from
/// the one that was taken. The first color stays first, and none is listed twice.
pub proof fn lemma_each_color_is_farthest<F: Fn(usize, usize) -> Scalar>(
    distance: F,
    count: nat,
    prefix: nat,
    limit: nat,
    order: Seq<usize>,
    taken: int,
    later: int,
    near: int,
)
    requires
        is_spread(distance, count, prefix, limit, order),
        0 < prefix <= taken < later < order.len(),
        0 <= near < taken,
        forall|i: int, j: int|
            0 <= i < order.len() && 0 <= j < order.len() ==> !apart(
                distance,
                #[trigger] order[i],
                #[trigger] order[j],
            ).is_nan_view(),
    ensures
        order[0] == 0,
        order[taken] != order[later],
        exists|i: int|
            0 <= i < taken && apart(distance, #[trigger] order[i], order[later]).at_most(
                apart(distance, order[near], order[taken]),
            ),
{
    let before = order.take(taken);
    let next = order[taken];
    let other = order[later];
    assert(is_farthest(distance, count, before, next));
    assert(!before.contains(other)) by {
        if before.contains(other) {
            let at = choose|i: int| 0 <= i < before.len() && before[i] == other;
            assert(order[at] != order[later]);
        }
    }
    assert forall|i: int| 0 <= i < before.len() implies !apart(
        distance,
        #[trigger] before[i],
        next,
    ).is_nan_view() && !apart(distance, before[i], other).is_nan_view() by {
        assert(before[i] == order[i]);
    }
    lemma_clearance(distance, before, next);
    lemma_clearance(distance, before, other);
    let here = clearance(distance, before, next);
    let there = clearance(distance, before, other);
    assert(there.place() <= here.place());
    assert(before[near] == order[near]);
    let at = choose|i: int|
        0 <= i < before.len() && apart(distance, #[trigger] before[i], other).at_most(there);
    assert(here.at_most(apart(distance, order[near], next)));
    assert(apart(distance, order[at], other).at_most(there));
    assert(there.at_most(here));
}

/// Whether the first pair of fills suits better. Where they are to stand out alike, what comes
/// second in their ranks counts first and how unlike they stand out counts next; then, as
/// everywhere, the other parts of their ranks, how far they are apart and their contrast.
pub open spec fn fill_pair_suits(
    balanced: bool,
    one: FillPairTotals,
    other: FillPairTotals,
) -> bool {
    let (first, second, third) = one.prefix;
    let (primary, secondary, tertiary) = other.prefix;
    let rest = ahead(
        third,
        tertiary,
        ahead(
            one.lost_distance,
            other.lost_distance,
            one.lost_contrast.place() <= other.lost_contrast.place(),
        ),
    );
    if balanced {
        ahead(
            second,
            secondary,
            ahead(one.imbalance, other.imbalance, ahead(first, primary, rest)),
        )
    } else {
        ahead(first, primary, ahead(second, secondary, rest))
    }
}

/// The pair of fills at the least key is colorful enough and keeps every floor, and no pair
/// that is and does suits better.
pub proof fn lemma_least_fill_pair_suits_best<F: Fn(usize, usize) -> PairFacts>(
    pair: &OverlayPair,
    measure: &F,
    firsts: Seq<usize>,
    seconds: Seq<usize>,
    found: (int, int),
    totals: FillPairTotals,
    other: (int, int),
    others: FillPairTotals,
)
    requires
        is_least_pair(
            |l: int, r: int| feasible_pair_key(pair, measure, firsts, seconds, l, r),
            firsts.len(),
            seconds.len(),
            found.0,
            found.1,
        ),
        measured(measure, firsts[found.0], seconds[found.1]).rank@ == totals.rank(
            pair.balance_salience,
        ),
        0 <= other.0 < firsts.len(),
        0 <= other.1 < seconds.len(),
        measured(measure, firsts[other.0], seconds[other.1]).rank@ == others.rank(
            pair.balance_salience,
        ),
        !pair.first@[firsts[other.0] as int].source_chroma.less(pair.chroma_floor),
        !pair.second@[seconds[other.1] as int].source_chroma.less(pair.chroma_floor),
        pair.limits.met(measured(measure, firsts[other.0], seconds[other.1]).separation),
    ensures
        !pair.first@[firsts[found.0] as int].source_chroma.less(pair.chroma_floor),
        !pair.second@[seconds[found.1] as int].source_chroma.less(pair.chroma_floor),
        pair.limits.met(measured(measure, firsts[found.0], seconds[found.1]).separation),
        fill_pair_suits(pair.balance_salience, totals, others),
{
    let keys = |l: int, r: int| feasible_pair_key(pair, measure, firsts, seconds, l, r);
    assert(keys(found.0, found.1) is Some);
    assert(keys(other.0, other.1) is Some);
    let left = keys(found.0, found.1)->0;
    let right = keys(other.0, other.1)->0;
    assert(!key_before(right, left));
    lemma_key_leads(left, right);
    reveal_with_fuel(leads, 9);
    assert(is_chromatic(pair.first@[firsts[found.0] as int], pair.chroma_floor));
    if pair.balance_salience {
        assert(left[5] == totals.lost_contrast.place() && right[5]
            == others.lost_contrast.place());
        assert(left[4] == totals.lost_distance.place() && right[4]
            == others.lost_distance.place());
    } else {
        assert(left[4] == totals.lost_contrast.place() && right[4]
            == others.lost_contrast.place());
        assert(left[3] == totals.lost_distance.place() && right[3]
            == others.lost_distance.place());
    }
}

/// A fill that misses nothing adds to a pair what comes behind its misses, and any other fill
/// its misses first.
pub proof fn lemma_rank_prefix(rank: Seq<Scalar>, slack: Scalar)
    requires
        rank.len() >= 5,
    ensures
        prefix_of(rank, slack).len() == 3,
        rank[0].at_most(slack) && rank[1].at_most(slack) ==> forall|i: int|
            0 <= i < 3 ==> #[trigger] prefix_of(rank, slack)[i] == rank[2 + i],
        !(rank[0].at_most(slack) && rank[1].at_most(slack)) ==> forall|i: int|
            0 <= i < 3 ==> #[trigger] prefix_of(rank, slack)[i] == rank[i],
{
}

/// The fills that are kept for their opacity are the most opaque ones.
pub proof fn lemma_opaque_fills_come_first(
    candidates: Seq<FillCandidate>,
    order: Seq<usize>,
    first: int,
    second: int,
)
    requires
        is_stable_order(opacity_keys(candidates), order),
        0 <= first < second < order.len(),
    ensures
        candidates[order[second] as int].emitted.a <= candidates[order[first] as int].emitted.a,
{
    let keys = opacity_keys(candidates);
    assert(stable_before(keys, order[first] as int, order[second] as int));
    let left = keys[order[first] as int];
    let right = keys[order[second] as int];
    assert(left[0] == 255 - candidates[order[first] as int].emitted.a);
    assert(right[0] == 255 - candidates[order[second] as int].emitted.a);
}

/// The fills that are kept for their salience miss the least and, where they miss as much,
/// exceed the most, then are the richest, then the most opaque.
pub proof fn lemma_salient_fills_come_first(
    candidates: Seq<FillCandidate>,
    order: Seq<usize>,
    first: int,
    second: int,
)
    requires
        is_stable_order(salience_keys(candidates), order),
        0 <= first < second < order.len(),
    ensures
        ({
            let one = candidates[order[first] as int];
            let other = candidates[order[second] as int];
            ahead(
                one.rank@[0],
                other.rank@[0],
                ahead(
                    other.rank@[1],
                    one.rank@[1],
                    ahead(
                        other.source_chroma,
                        one.source_chroma,
                        other.emitted.a <= one.emitted.a,
                    ),
                ),
            )
        }),
{
    let keys = salience_keys(candidates);
    assert(stable_before(keys, order[first] as int, order[second] as int));
    let left = keys[order[first] as int];
    let right = keys[order[second] as int];
    lemma_key_total(left, right);
    assert(!key_before(right, left));
    lemma_key_leads(left, right);
    reveal_with_fuel(leads, 7);
}

/// A pair of fills is looked for among few fills first, then among many if there is room for
/// them, and only where that is allowed among fills that miss something.
pub proof fn lemma_pairs_are_found_in_turn<F: Fn(usize, usize) -> PairFacts>(
    pair: &OverlayPair,
    measure: &F,
    limit: nat,
    allow_fallback: bool,
    found: Option<(usize, usize)>,
)
    requires
        is_overlay_pair(pair, measure, limit, allow_fallback, found),
    ensures
        limit >= 128 ==> is_frontier_choice(pair, measure, 128, None) || found is Some
            && is_frontier_choice(pair, measure, 128, found),
        limit >= 512 ==> is_frontier_choice(pair, measure, 512, None) || found is Some && (
        is_frontier_choice(pair, measure, 128, found) || is_frontier_choice(
            pair,
            measure,
            512,
            found,
        )),
        found is Some && !allow_fallback ==> limit >= 128 && (is_frontier_choice(
            pair,
            measure,
            128,
            found,
        ) || is_frontier_choice(pair, measure, 512, found)),
        found is None && allow_fallback ==> is_fallback_choice(
            pair,
            measure,
            if limit <= 256 {
                limit
            } else {
                256
            },
            None,
        ),
{
}

/// How far the two colors of a pair stand apart, in thousandths: changes more in contrast,
/// semantic colors either more in contrast or more in both distances.
pub proof fn lemma_pair_contracts(semantic: PairContract, diff: PairContract)
    requires
        call_ensures(semantic_pair_contract, (), semantic),
        call_ensures(syntax_diff_contract, (), diff),
    ensures
        semantic.contrast == 1050 && semantic.normal_delta_e == 75 && semantic.cvd_delta_e == 40,
        semantic.separation_alternative == Some((1350u32, 100u32, 50u32)),
        diff.contrast == 1100 && diff.normal_delta_e == 80 && diff.cvd_delta_e == 40,
        diff.separation_alternative is None,
{
}

/// Of the candidates of the best effort exactly those are kept whose deficit is within the
/// ceiling of the best one.
pub proof fn lemma_least_deficits_are_kept(
    candidates: Seq<PairCandidate>,
    all: Seq<usize>,
    order: Seq<usize>,
    index: int,
)
    requires
        keeps_least_deficit(candidates, all, order),
        0 <= index < all.len(),
    ensures
        order.contains(all[index]) <==> candidates[all[index] as int].deficit.at_most(
            candidates[all[0] as int].deficit_ceiling,
        ),
{
    let near = |position: usize|
        candidates[position as int].deficit.at_most(candidates[all[0] as int].deficit_ceiling);
    assert(order == all.filter(near));
    if near(all[index]) {
        all.lemma_filter_contains(near, index);
    }
    if order.contains(all[index]) {
        let at = choose|i: int| 0 <= i < order.len() && order[i] == all[index];
        all.lemma_filter_pred(near, at);
    }
}

} // verus!
