//! What the color that is fitted has over every other that could have been.

use crate::color::Rgb24;
use crate::order::{is_least, key_before};
use crate::scalar::Scalar;
use crate::search::select::{
    any_feasible, color_candidate, color_key, color_pool, effort_keys, feasible_keys, is_choice,
    is_distinct_choice, is_fitted_color, is_fresh, ranks_states, Candidate, ColorFacts,
    ColorLimits, DistinctFacts, DistinctLimits, StateFacts, StateLimits,
};
use vstd::prelude::*;

verus! {

/// Whether `left` is smaller, or as small and ahead by what breaks the tie.
pub open spec fn ahead(left: Scalar, right: Scalar, tie: bool) -> bool {
    left.place() < right.place() || (left.place() == right.place() && tie)
}

/// Whether the keys agree up to a place where `left` is smaller, from `from` on.
pub open spec fn leads(left: Seq<i64>, right: Seq<i64>, from: int) -> bool
    decreases left.len() - from,
{
    from >= left.len() || from >= right.len() || left[from] < right[from] || (left[from]
        == right[from] && leads(left, right, from + 1))
}

proof fn lemma_leads(left: Seq<i64>, right: Seq<i64>, from: int)
    requires
        left.len() == right.len(),
        0 <= from <= left.len(),
        !key_before(right.skip(from), left.skip(from)),
    ensures
        leads(left, right, from),
    decreases left.len() - from,
{
    if from < left.len() {
        assert(left.skip(from)[0] == left[from] && right.skip(from)[0] == right[from]);
        assert(left.skip(from).drop_first() =~= left.skip(from + 1));
        assert(right.skip(from).drop_first() =~= right.skip(from + 1));
        if left[from] == right[from] {
            lemma_leads(left, right, from + 1);
        }
    }
}

/// A key that no other of its length precedes leads it.
pub proof fn lemma_key_leads(left: Seq<i64>, right: Seq<i64>)
    requires
        left.len() == right.len(),
        !key_before(right, left),
    ensures
        leads(left, right, 0),
{
    assert(left.skip(0) =~= left);
    assert(right.skip(0) =~= right);
    lemma_leads(left, right, 0);
}

/// A least key leads every other of its length.
pub proof fn lemma_least_leads(keys: Seq<Option<Seq<i64>>>, position: int, other: int)
    requires
        is_least(keys, position),
        0 <= other < keys.len(),
        keys[other] is Some,
        keys[other]->0.len() == keys[position]->0.len(),
    ensures
        leads(keys[position]->0, keys[other]->0, 0),
{
    lemma_key_leads(keys[position]->0, keys[other]->0);
}

/// Whether the feasible member of the pool at `position` has a rank: the source has
/// none where it would have been kept.
pub open spec fn is_ranked(limits: ColorLimits, pool: Seq<ColorFacts>, position: int) -> bool {
    0 <= position < pool.len() && limits.admits(pool[position]) && !(position == 0
        && limits.keeps_source())
}

/// Where the fitted color stands in the pool when something is feasible.
proof fn lemma_fitted_position(
    seed: Seq<char>,
    limits: ColorLimits,
    source: ColorFacts,
    table: Seq<ColorFacts>,
    chosen: Seq<char>,
    feasible: int,
) -> (position: int)
    requires
        is_fitted_color(seed, limits, source, table, chosen),
        !(limits.keeps_source() && limits.admits(source)),
        is_ranked(limits, color_pool(source, table), feasible),
    ensures
        is_ranked(limits, color_pool(source, table), position),
        chosen == color_pool(source, table)[position].color.hex_view(),
        forall|other: int| #[trigger]
            is_ranked(limits, color_pool(source, table), other) ==> leads(
                color_key(
                    limits.rank_of(color_pool(source, table)[position].totals),
                    color_pool(source, table)[position].color,
                ),
                color_key(
                    limits.rank_of(color_pool(source, table)[other].totals),
                    color_pool(source, table)[other].color,
                ),
                0,
            ),
{
    let pool = color_pool(source, table);
    let (candidates, position) = choose|candidates: Seq<Candidate>, position: int|
        {
            &&& candidates.len() == pool.len()
            &&& forall|i: int|
                0 <= i < pool.len() ==> color_candidate(limits, pool, i, #[trigger] candidates[i])
            &&& #[trigger] is_choice(candidates, position)
            &&& 0 <= position < pool.len()
            &&& chosen == pool[position].color.hex_view()
        };
    assert(color_candidate(limits, pool, feasible, candidates[feasible]));
    assert(any_feasible(candidates));
    let keys = feasible_keys(candidates);
    assert(is_least(keys, position));
    assert(color_candidate(limits, pool, position, candidates[position]));
    assert forall|other: int| #[trigger] is_ranked(limits, pool, other) implies leads(
        color_key(limits.rank_of(pool[position].totals), pool[position].color),
        color_key(limits.rank_of(pool[other].totals), pool[other].color),
        0,
    ) by {
        assert(color_candidate(limits, pool, other, candidates[other]));
        assert(keys[other] is Some);
        lemma_least_leads(keys, position, other);
    }
    position
}

/// Whether the first color moved the seed less than the second, or as far with less
/// contrast beyond what was asked for, or else with more of the seed's chroma.
pub open spec fn moves_less(one: ColorFacts, other: ColorFacts) -> bool {
    ahead(
        one.totals.distance,
        other.totals.distance,
        ahead(
            one.totals.overshoot,
            other.totals.overshoot,
            ahead(
                one.totals.lost_retention,
                other.totals.lost_retention,
                one.color.packed() <= other.color.packed(),
            ),
        ),
    )
}

/// Where nothing is preferred, a seed that keeps the limits is kept, and any other is moved
/// as little as they allow: no feasible color of the table is nearer to the seed, whether
/// or not the chroma is limited. Colors as near are told apart by how far they exceed the
/// contrast, by the chroma that they lose, and then by their number.
pub proof fn lemma_fit_moves_least(
    seed: Seq<char>,
    limits: ColorLimits,
    source: ColorFacts,
    table: Seq<ColorFacts>,
    chosen: Seq<char>,
)
    requires
        is_fitted_color(seed, limits, source, table, chosen),
        !limits.prefers_contrast,
        !limits.prefers_background,
    ensures
        limits.admits(source) ==> chosen == seed,
        !limits.admits(source) && (exists|i: int|
            0 <= i < table.len() && limits.admits(#[trigger] table[i])) ==> exists|i: int|
            {
                &&& 0 <= i < table.len()
                &&& limits.admits(#[trigger] table[i])
                &&& chosen == table[i].color.hex_view()
                &&& forall|j: int|
                    0 <= j < table.len() && limits.admits(#[trigger] table[j]) ==> {
                        &&& table[i].totals.distance.place() <= table[j].totals.distance.place()
                        &&& moves_less(table[i], table[j])
                    }
            },
{
    let pool = color_pool(source, table);
    if !limits.admits(source) && (exists|i: int|
        0 <= i < table.len() && limits.admits(#[trigger] table[i])) {
        let some = choose|i: int| 0 <= i < table.len() && limits.admits(#[trigger] table[i]);
        assert(pool[some + 1] == table[some]);
        let position = lemma_fitted_position(seed, limits, source, table, chosen, some + 1);
        let at = position - 1;
        assert(table[at] == pool[position]);
        assert forall|j: int| 0 <= j < table.len() && limits.admits(#[trigger] table[j]) implies {
            &&& table[at].totals.distance.place() <= table[j].totals.distance.place()
            &&& moves_less(table[at], table[j])
        } by {
            assert(pool[j + 1] == table[j]);
            assert(is_ranked(limits, pool, j + 1));
            reveal_with_fuel(leads, 6);
            let left = color_key(limits.rank_of(table[at].totals), table[at].color);
            let right = color_key(limits.rank_of(table[j].totals), table[j].color);
            assert(leads(left, right, 0));
        }
    }
}

/// Whether the first color is nearer to the preferred contrast, then to the backgrounds
/// or to the seed, then richer.
pub open spec fn contrasts_nearer(near_background: bool, one: ColorFacts, other: ColorFacts) -> bool {
    let rest = ahead(
        one.totals.lost_retention,
        other.totals.lost_retention,
        one.color.packed() <= other.color.packed(),
    );
    ahead(
        one.totals.contrast_gap,
        other.totals.contrast_gap,
        if near_background {
            ahead(one.totals.background_gap, other.totals.background_gap, rest)
        } else {
            ahead(one.totals.distance, other.totals.distance, rest)
        },
    )
}

/// Where a contrast is preferred, the fitted color is feasible if the source or a color of
/// the table is, and no feasible one of them comes nearer to that contrast. Colors as near
/// are told apart by the background, where it is preferred too, or else by the seed.
pub proof fn lemma_fit_reaches_contrast(
    seed: Seq<char>,
    limits: ColorLimits,
    source: ColorFacts,
    table: Seq<ColorFacts>,
    chosen: Seq<char>,
)
    requires
        is_fitted_color(seed, limits, source, table, chosen),
        limits.prefers_contrast,
    ensures
        ({
            let pool = color_pool(source, table);
            (exists|i: int| 0 <= i < pool.len() && limits.admits(#[trigger] pool[i])) ==> exists|
                i: int,
            |
                {
                    &&& 0 <= i < pool.len()
                    &&& limits.admits(#[trigger] pool[i])
                    &&& chosen == pool[i].color.hex_view()
                    &&& forall|j: int|
                        0 <= j < pool.len() && limits.admits(#[trigger] pool[j]) ==> {
                            &&& pool[i].totals.contrast_gap.place()
                                <= pool[j].totals.contrast_gap.place()
                            &&& contrasts_nearer(limits.prefers_background, pool[i], pool[j])
                        }
                }
        }),
{
    let pool = color_pool(source, table);
    if exists|i: int| 0 <= i < pool.len() && limits.admits(#[trigger] pool[i]) {
        let some = choose|i: int| 0 <= i < pool.len() && limits.admits(#[trigger] pool[i]);
        let at = lemma_fitted_position(seed, limits, source, table, chosen, some);
        assert forall|j: int| 0 <= j < pool.len() && limits.admits(#[trigger] pool[j]) implies {
            &&& pool[at].totals.contrast_gap.place() <= pool[j].totals.contrast_gap.place()
            &&& contrasts_nearer(limits.prefers_background, pool[at], pool[j])
        } by {
            assert(is_ranked(limits, pool, j));
            reveal_with_fuel(leads, 6);
            let left = color_key(limits.rank_of(pool[at].totals), pool[at].color);
            let right = color_key(limits.rank_of(pool[j].totals), pool[j].color);
            assert(leads(left, right, 0));
        }
        assert(limits.admits(pool[at]));
    }
}

/// Whether the first color is nearer to the backgrounds, then exceeds its contrast less,
/// then moves the seed less, then is richer.
pub open spec fn blends_nearer(one: ColorFacts, other: ColorFacts) -> bool {
    ahead(
        one.totals.background_gap,
        other.totals.background_gap,
        ahead(
            one.totals.overshoot,
            other.totals.overshoot,
            ahead(
                one.totals.distance,
                other.totals.distance,
                ahead(
                    one.totals.lost_retention,
                    other.totals.lost_retention,
                    one.color.packed() <= other.color.packed(),
                ),
            ),
        ),
    )
}

/// Where the background is preferred and no contrast is, no feasible color comes nearer to
/// the backgrounds than the fitted one.
pub proof fn lemma_fit_stays_near_background(
    seed: Seq<char>,
    limits: ColorLimits,
    source: ColorFacts,
    table: Seq<ColorFacts>,
    chosen: Seq<char>,
)
    requires
        is_fitted_color(seed, limits, source, table, chosen),
        !limits.prefers_contrast,
        limits.prefers_background,
    ensures
        ({
            let pool = color_pool(source, table);
            (exists|i: int| 0 <= i < pool.len() && limits.admits(#[trigger] pool[i])) ==> exists|
                i: int,
            |
                {
                    &&& 0 <= i < pool.len()
                    &&& limits.admits(#[trigger] pool[i])
                    &&& chosen == pool[i].color.hex_view()
                    &&& forall|j: int|
                        0 <= j < pool.len() && limits.admits(#[trigger] pool[j]) ==> {
                            &&& pool[i].totals.background_gap.place()
                                <= pool[j].totals.background_gap.place()
                            &&& blends_nearer(pool[i], pool[j])
                        }
                }
        }),
{
    let pool = color_pool(source, table);
    if exists|i: int| 0 <= i < pool.len() && limits.admits(#[trigger] pool[i]) {
        let some = choose|i: int| 0 <= i < pool.len() && limits.admits(#[trigger] pool[i]);
        let at = lemma_fitted_position(seed, limits, source, table, chosen, some);
        assert forall|j: int| 0 <= j < pool.len() && limits.admits(#[trigger] pool[j]) implies {
            &&& pool[at].totals.background_gap.place() <= pool[j].totals.background_gap.place()
            &&& blends_nearer(pool[at], pool[j])
        } by {
            assert(is_ranked(limits, pool, j));
            reveal_with_fuel(leads, 6);
            let left = color_key(limits.rank_of(pool[at].totals), pool[at].color);
            let right = color_key(limits.rank_of(pool[j].totals), pool[j].color);
            assert(leads(left, right, 0));
        }
        assert(limits.admits(pool[at]));
    }
}

/// Whether the first color misses the hard limits less, then exceeds the ceilings less, then
/// serves the preference better (that of the contrast, else of the background, else of the
/// seed), then moves the seed less, then is richer.
pub open spec fn misses_less(limits: ColorLimits, one: ColorFacts, other: ColorFacts) -> bool {
    let rest = ahead(
        one.totals.distance,
        other.totals.distance,
        ahead(
            one.totals.lost_retention,
            other.totals.lost_retention,
            one.color.packed() <= other.color.packed(),
        ),
    );
    ahead(
        one.totals.hard_deficit,
        other.totals.hard_deficit,
        ahead(
            one.totals.ceiling_excess,
            other.totals.ceiling_excess,
            if limits.prefers_contrast {
                ahead(one.totals.contrast_gap, other.totals.contrast_gap, rest)
            } else if limits.prefers_background {
                ahead(one.totals.background_gap, other.totals.background_gap, rest)
            } else {
                rest
            },
        ),
    )
}

/// Where nothing is feasible, the fitted color is the one of the source and the table that
/// misses the limits least.
pub proof fn lemma_fit_makes_best_effort(
    seed: Seq<char>,
    limits: ColorLimits,
    source: ColorFacts,
    table: Seq<ColorFacts>,
    chosen: Seq<char>,
)
    requires
        is_fitted_color(seed, limits, source, table, chosen),
        forall|i: int|
            0 <= i < color_pool(source, table).len() ==> !limits.admits(
                #[trigger] color_pool(source, table)[i],
            ),
    ensures
        ({
            let pool = color_pool(source, table);
            exists|i: int|
                {
                    &&& 0 <= i < pool.len()
                    &&& chosen == (#[trigger] pool[i]).color.hex_view()
                    &&& forall|j: int|
                        0 <= j < pool.len() ==> misses_less(limits, pool[i], #[trigger] pool[j])
                }
        }),
{
    let pool = color_pool(source, table);
    assert(!limits.admits(pool[0]));
    let (candidates, at) = choose|candidates: Seq<Candidate>, position: int|
        {
            &&& candidates.len() == pool.len()
            &&& forall|i: int|
                0 <= i < pool.len() ==> color_candidate(limits, pool, i, #[trigger] candidates[i])
            &&& #[trigger] is_choice(candidates, position)
            &&& 0 <= position < pool.len()
            &&& chosen == pool[position].color.hex_view()
        };
    assert forall|i: int| 0 <= i < pool.len() implies (#[trigger] candidates[i]).rank is None by {
        assert(color_candidate(limits, pool, i, candidates[i]));
        assert(!limits.admits(pool[i]));
    }
    let keys = effort_keys(candidates);
    assert(is_least(keys, at));
    assert(color_candidate(limits, pool, at, candidates[at]));
    assert forall|j: int| 0 <= j < pool.len() implies misses_less(
        limits,
        pool[at],
        #[trigger] pool[j],
    ) by {
        assert(color_candidate(limits, pool, j, candidates[j]));
        assert(keys[j] is Some);
        lemma_least_leads(keys, at, j);
        reveal_with_fuel(leads, 7);
        let left = color_key(limits.effort_of(pool[at].totals), pool[at].color);
        let right = color_key(limits.effort_of(pool[j].totals), pool[j].color);
        assert(keys[at] == Some(left));
        assert(keys[j] == Some(right));
    }
    assert(chosen == pool[at].color.hex_view());
}

/// A color that is feasible lies between the lightness bounds and, where they are set,
/// between the chroma bounds; it stands apart from every color to be avoided in lightness
/// and in distance, and on every background it reaches the floor and exceeds neither the
/// common ceiling nor that of the background. A color that does all this is feasible.
pub proof fn lemma_feasible_colors(limits: ColorLimits, facts: ColorFacts)
    ensures
        limits.admits(facts) <==> {
            &&& !(facts.lightness.less(limits.lower_lightness)) && !(limits.upper_lightness.less(
                facts.lightness,
            ))
            &&& limits.chroma matches Some((lower, upper)) ==> !facts.chroma.less(lower)
                && !upper.less(facts.chroma)
            &&& forall|i: int|
                0 <= i < facts.avoided@.len() ==> {
                    let other = #[trigger] facts.avoided@[i];
                    !other.lightness_gap.less(limits.avoided_lightness) && !other.distance.less(
                        limits.avoided_distance,
                    )
                }
            &&& forall|i: int|
                0 <= i < facts.contrasts@.len() ==> {
                    let on = #[trigger] facts.contrasts@[i];
                    &&& on.meets_floor
                    &&& limits.maximum_contrast is Some ==> !limits.maximum_contrast->0.less(
                        on.ratio,
                    )
                    &&& limits.ceilings is Some && i < limits.ceilings->0@.len()
                        ==> !limits.ceilings->0@[i].less(on.ratio)
                }
        },
{
}

/// Whether the first state is nearer to the preference, then ends nearer, then moves the
/// seed less, then is richer; without a preference, whether it ends nearer, then exceeds
/// its contrast less, then moves the seed less, then is richer.
pub open spec fn state_suits(preferring: bool, one: StateFacts, other: StateFacts) -> bool {
    let rest = ahead(
        one.distance,
        other.distance,
        ahead(
            one.lost_retention,
            other.lost_retention,
            one.color.packed() <= other.color.packed(),
        ),
    );
    if preferring {
        ahead(
            one.preference_distance,
            other.preference_distance,
            ahead(one.final_distance, other.final_distance, rest),
        )
    } else {
        ahead(
            one.final_distance,
            other.final_distance,
            ahead(one.overshoot, other.overshoot, rest),
        )
    }
}

/// Whether the first state misses the hard limits less, then exceeds the ceilings less, then
/// is nearer to the preference or else to the seed, then exceeds its contrast less, then
/// moves the seed less, then is richer.
pub open spec fn state_misses_less(preferring: bool, one: StateFacts, other: StateFacts) -> bool {
    let rest = ahead(
        one.overshoot,
        other.overshoot,
        ahead(
            one.distance,
            other.distance,
            ahead(
                one.lost_retention,
                other.lost_retention,
                one.color.packed() <= other.color.packed(),
            ),
        ),
    );
    ahead(
        one.hard_deficit,
        other.hard_deficit,
        ahead(
            one.ceiling_excess,
            other.ceiling_excess,
            if preferring {
                ahead(one.preference_distance, other.preference_distance, rest)
            } else {
                ahead(one.distance, other.distance, rest)
            },
        ),
    )
}

/// Whether the state keeps the chroma floor, where there is one, and misses its limits by no
/// more than the slack.
pub open spec fn state_is_feasible(limits: StateLimits, facts: StateFacts) -> bool {
    &&& limits.chroma_floor is Some ==> !facts.chroma.less(limits.chroma_floor->0)
    &&& !limits.slack.less(facts.deficit)
}

/// The state color that is fitted is feasible if any is, and none that is feasible suits
/// better; if none is, none misses the limits less.
pub proof fn lemma_state_suits_best(
    limits: StateLimits,
    table: Seq<StateFacts>,
    candidates: Seq<Candidate>,
    position: int,
)
    requires
        ranks_states(limits, table, candidates),
        is_choice(candidates, position),
    ensures
        0 <= position < table.len(),
        candidates[position].color == table[position].color,
        forall|j: int|
            0 <= j < table.len() && state_is_feasible(limits, #[trigger] table[j]) ==> {
                &&& state_is_feasible(limits, table[position])
                &&& state_suits(limits.has_preference, table[position], table[j])
            },
        (forall|j: int| 0 <= j < table.len() ==> !state_is_feasible(limits, #[trigger] table[j]))
            ==> forall|j: int|
            0 <= j < table.len() ==> state_misses_less(
                limits.has_preference,
                table[position],
                #[trigger] table[j],
            ),
{
    assert(0 <= position < candidates.len());
    assert(candidates[position].color == table[position].color);
    let feasible = feasible_keys(candidates);
    let effort = effort_keys(candidates);
    assert forall|j: int| 0 <= j < table.len() && state_is_feasible(
        limits,
        #[trigger] table[j],
    ) implies {
        &&& state_is_feasible(limits, table[position])
        &&& state_suits(limits.has_preference, table[position], table[j])
    } by {
        assert(limits.admits(table[j]));
        assert(candidates[j].rank is Some);
        assert(any_feasible(candidates));
        assert(feasible[position] is Some);
        assert(candidates[position].rank is Some);
        let left = color_key(limits.rank_of(table[position]), table[position].color);
        let right = color_key(limits.rank_of(table[j]), table[j].color);
        assert(feasible[position] == Some(left));
        assert(feasible[j] == Some(right));
        lemma_least_leads(feasible, position, j);
        reveal_with_fuel(leads, 6);
    }
    if forall|j: int| 0 <= j < table.len() ==> !state_is_feasible(limits, #[trigger] table[j]) {
        assert forall|i: int| 0 <= i < candidates.len() implies (#[trigger] candidates[i]).rank
            is None by {
            assert(!state_is_feasible(limits, table[i]));
        }
        assert(!any_feasible(candidates));
        assert forall|j: int| 0 <= j < table.len() implies state_misses_less(
            limits.has_preference,
            table[position],
            #[trigger] table[j],
        ) by {
            let left = color_key(limits.effort_of(table[position]), table[position].color);
            let right = color_key(limits.effort_of(table[j]), table[j].color);
            assert(candidates[j].effort@ == limits.effort_of(table[j]));
            assert(effort[position] == Some(left));
            assert(effort[j] == Some(right));
            lemma_least_leads(effort, position, j);
            reveal_with_fuel(leads, 8);
        }
    }
}

/// Whether the candidate is readable and stands apart from the colors chosen before, for
/// every kind of vision.
pub open spec fn stands_apart(limits: DistinctLimits, facts: DistinctFacts) -> bool {
    &&& !limits.slack.less(facts.contrast_deficit)
    &&& !facts.normal.less(limits.normal)
    &&& limits.cvd.at_most(facts.cvd)
}

/// Whether the first color moves the seed less, then exceeds its contrast less, then is
/// richer.
pub open spec fn distinct_suits(one: DistinctFacts, other: DistinctFacts) -> bool {
    ahead(
        one.distance,
        other.distance,
        ahead(
            one.overshoot,
            other.overshoot,
            ahead(
                one.lost_retention,
                other.lost_retention,
                one.color.packed() <= other.color.packed(),
            ),
        ),
    )
}

/// Whether the first color is more readable, then farther from the chosen colors in normal
/// vision, then in color-deficient vision, then suits better.
pub open spec fn distinct_misses_less(one: DistinctFacts, other: DistinctFacts) -> bool {
    ahead(
        one.contrast_deficit,
        other.contrast_deficit,
        ahead(
            one.normal_loss,
            other.normal_loss,
            ahead(one.cvd_loss, other.cvd_loss, distinct_suits(one, other)),
        ),
    )
}

/// A color chosen next to others stands apart from them if any new one does, and then none
/// that stands apart suits better; if none does, none misses less.
pub proof fn lemma_distinct_suits_best(
    limits: DistinctLimits,
    chosen: Seq<Rgb24>,
    table: Seq<DistinctFacts>,
    candidates: Seq<Candidate>,
    position: int,
)
    requires
        candidates.len() == table.len(),
        forall|i: int|
            0 <= i < table.len() ==> limits.is_candidate(table[i], #[trigger] candidates[i]),
        is_distinct_choice(chosen, candidates, position),
    ensures
        0 <= position < table.len(),
        candidates[position].color == table[position].color,
        !chosen.contains(table[position].color),
        forall|j: int|
            0 <= j < table.len() && is_fresh(chosen, candidates, j) && stands_apart(
                limits,
                #[trigger] table[j],
            ) ==> {
                &&& stands_apart(limits, table[position])
                &&& distinct_suits(table[position], table[j])
            },
        (forall|j: int|
            0 <= j < table.len() && is_fresh(chosen, candidates, j) ==> !stands_apart(
                limits,
                #[trigger] table[j],
            )) ==> forall|j: int|
            0 <= j < table.len() && is_fresh(chosen, candidates, j) ==> distinct_misses_less(
                table[position],
                #[trigger] table[j],
            ),
{
    let any = exists|i: int|
        0 <= i < candidates.len() && is_fresh(chosen, candidates, i) && (
        #[trigger] candidates[i]).rank is Some;
    let keys = Seq::new(
        candidates.len(),
        |i: int|
            if !is_fresh(chosen, candidates, i) {
                None
            } else if any {
                match candidates[i].rank {
                    Some(rank) => Some(color_key(rank@, candidates[i].color)),
                    None => None,
                }
            } else {
                Some(color_key(candidates[i].effort@, candidates[i].color))
            },
    );
    assert(is_least(keys, position));
    assert(limits.is_candidate(table[position], candidates[position]));
    assert(is_fresh(chosen, candidates, position));
    assert forall|j: int|
        0 <= j < table.len() && is_fresh(chosen, candidates, j) && stands_apart(
            limits,
            #[trigger] table[j],
        ) implies {
        &&& stands_apart(limits, table[position])
        &&& distinct_suits(table[position], table[j])
    } by {
        assert(limits.is_candidate(table[j], candidates[j]));
        assert(candidates[j].rank is Some);
        assert(any);
        assert(keys[position] is Some);
        assert(keys[j] is Some);
        lemma_least_leads(keys, position, j);
        reveal_with_fuel(leads, 5);
    }
    if forall|j: int|
        0 <= j < table.len() && is_fresh(chosen, candidates, j) ==> !stands_apart(
            limits,
            #[trigger] table[j],
        ) {
        assert forall|i: int|
            0 <= i < candidates.len() && is_fresh(chosen, candidates, i) implies (
        #[trigger] candidates[i]).rank is None by {
            assert(limits.is_candidate(table[i], candidates[i]));
            assert(!stands_apart(limits, table[i]));
        }
        assert(!any);
        assert forall|j: int|
            0 <= j < table.len() && is_fresh(chosen, candidates, j) implies distinct_misses_less(
            table[position],
            #[trigger] table[j],
        ) by {
            assert(limits.is_candidate(table[j], candidates[j]));
            assert(keys[j] is Some);
            lemma_least_leads(keys, position, j);
            reveal_with_fuel(leads, 8);
        }
    }
}

} // verus!
