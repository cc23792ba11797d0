//! Selection of the best feasible candidate, or of the least bad one.

use crate::color::Rgb24;
use crate::order::{is_least, key_before, least, optional_keys, rank_key, rank_places};
use crate::scalar::Scalar;
use vstd::prelude::*;

verus! {

/// A candidate color with its rank among the feasible ones, if it is feasible,
/// and its rank among all.
#[derive(Clone, Debug)]
pub struct Candidate {
    pub color: Rgb24,
    pub rank: Option<Vec<Scalar>>,
    pub effort: Vec<Scalar>,
}

/// What ranked colors are ordered by: the rank, then the packed color.
pub open spec fn color_key(rank: Seq<Scalar>, color: Rgb24) -> Seq<i64> {
    rank_key(rank).push(color.packed() as i64)
}

/// The keys of the feasible candidates.
pub open spec fn feasible_keys(candidates: Seq<Candidate>) -> Seq<Option<Seq<i64>>> {
    candidates.map_values(
        |candidate: Candidate|
            match candidate.rank {
                Some(rank) => Some(color_key(rank@, candidate.color)),
                None => None,
            },
    )
}

/// The keys of all candidates by effort.
pub open spec fn effort_keys(candidates: Seq<Candidate>) -> Seq<Option<Seq<i64>>> {
    candidates.map_values(
        |candidate: Candidate| Some(color_key(candidate.effort@, candidate.color)),
    )
}

/// Whether some candidate is feasible.
pub open spec fn any_feasible(candidates: Seq<Candidate>) -> bool {
    exists|i: int| 0 <= i < candidates.len() && (#[trigger] candidates[i]).rank is Some
}

/// Whether `position` is the choice among the candidates: the best feasible one,
/// or the best effort when none is feasible. The first of equals wins.
pub open spec fn is_choice(candidates: Seq<Candidate>, position: int) -> bool {
    if any_feasible(candidates) {
        is_least(feasible_keys(candidates), position)
    } else {
        is_least(effort_keys(candidates), position)
    }
}

fn key_of(rank: &Vec<Scalar>, color: Rgb24) -> (key: Vec<i64>)
    ensures
        key@ == color_key(rank@, color),
{
    let mut key = rank_places(rank);
    key.push(color.pack() as i64);
    key
}

/// The best feasible candidate, or the best effort when none is feasible.
pub fn choose_candidate(candidates: &Vec<Candidate>) -> (chosen: Option<usize>)
    ensures
        chosen is None <==> candidates@.len() == 0,
        chosen matches Some(position) ==> position < candidates@.len() && is_choice(
            candidates@,
            position as int,
        ),
{
    let mut feasible: Vec<Option<Vec<i64>>> = Vec::new();
    let mut effort: Vec<Option<Vec<i64>>> = Vec::new();
    let mut index: usize = 0;
    while index < candidates.len()
        invariant
            index <= candidates@.len(),
            feasible@.len() == index,
            effort@.len() == index,
            forall|i: int|
                0 <= i < index ==> (#[trigger] optional_keys(feasible@)[i]) == feasible_keys(
                    candidates@,
                )[i],
            forall|i: int|
                0 <= i < index ==> (#[trigger] optional_keys(effort@)[i]) == effort_keys(
                    candidates@,
                )[i],
        decreases candidates@.len() - index,
    {
        let candidate = &candidates[index];
        let ghost held_feasible = optional_keys(feasible@);
        let ghost held_effort = optional_keys(effort@);
        let key: Option<Vec<i64>> = match &candidate.rank {
            Some(rank) => Some(key_of(rank, candidate.color)),
            None => None,
        };
        feasible.push(key);
        effort.push(Some(key_of(&candidate.effort, candidate.color)));
        assert(optional_keys(feasible@) =~= held_feasible.push(
            feasible_keys(candidates@)[index as int],
        ));
        assert(optional_keys(effort@) =~= held_effort.push(effort_keys(candidates@)[index as int]));
        index += 1;
    }
    assert(optional_keys(feasible@) =~= feasible_keys(candidates@));
    assert(optional_keys(effort@) =~= effort_keys(candidates@));
    let best = least(&feasible);
    assert forall|i: int| 0 <= i < candidates@.len() implies ((#[trigger] candidates@[i]).rank
        is Some <==> feasible@[i] is Some) by {
        assert(optional_keys(feasible@)[i] == feasible_keys(candidates@)[i]);
    }
    assert(any_feasible(candidates@) <==> best is Some) by {
        if best is None && any_feasible(candidates@) {
            let at = choose|i: int|
                0 <= i < candidates@.len() && (#[trigger] candidates@[i]).rank is Some;
            assert(feasible@[at] is Some);
        }
        if let Some(position) = best {
            assert(feasible_keys(candidates@)[position as int] is Some);
            assert(candidates@[position as int].rank is Some);
        }
    }
    match best {
        Some(position) => Some(position),
        None => {
            let fallback = least(&effort);
            assert(fallback is None ==> candidates@.len() == 0) by {
                if candidates@.len() > 0 {
                    assert(effort@[0] is Some) by {
                        assert(optional_keys(effort@)[0] == effort_keys(candidates@)[0]);
                    }
                }
            }
            fallback
        },
    }
}

/// A feasible candidate is chosen whenever there is one, and then no feasible
/// candidate ranks before it.
pub proof fn lemma_choice_prefers_feasible(candidates: Seq<Candidate>, position: int, other: int)
    requires
        is_choice(candidates, position),
        0 <= other < candidates.len(),
        candidates[other].rank is Some,
    ensures
        candidates[position].rank is Some,
        !key_before(
            color_key(candidates[other].rank->0@, candidates[other].color),
            color_key(candidates[position].rank->0@, candidates[position].color),
        ),
{
    assert(any_feasible(candidates));
    let keys = feasible_keys(candidates);
    assert(keys[position] is Some);
    assert(keys[other] == Some(color_key(candidates[other].rank->0@, candidates[other].color)));
}

/// The choice is unique: it does not depend on how it is found.
pub proof fn lemma_choice_is_unique(candidates: Seq<Candidate>, left: int, right: int)
    requires
        is_choice(candidates, left),
        is_choice(candidates, right),
    ensures
        left == right,
{
    let keys = if any_feasible(candidates) {
        feasible_keys(candidates)
    } else {
        effort_keys(candidates)
    };
    assert(keys[left] is Some && keys[right] is Some);
}

/// How a candidate stands to a color that must be avoided.
#[derive(Clone, Copy, Debug)]
pub struct AvoidedFacts {
    pub lightness_gap: Scalar,
    pub distance: Scalar,
}

/// How a candidate stands on one background.
#[derive(Clone, Copy, Debug)]
pub struct ContrastFacts {
    pub ratio: Scalar,
    pub meets_floor: bool,
}

/// What is measured of a candidate for a color fit.
#[derive(Clone, Debug)]
pub struct ColorFacts {
    pub color: Rgb24,
    pub lightness: Scalar,
    pub chroma: Scalar,
    pub avoided: Vec<AvoidedFacts>,
    pub contrasts: Vec<ContrastFacts>,
    pub totals: ColorTotals,
}

/// The sums that fitted colors are ranked by.
#[derive(Clone, Copy, Debug)]
pub struct ColorTotals {
    /// How far the candidate is from the preferred contrast.
    pub contrast_gap: Scalar,
    /// How far its lightness is from that of the backgrounds.
    pub background_gap: Scalar,
    /// How far its contrasts exceed their floors.
    pub overshoot: Scalar,
    /// How far it is from the seed.
    pub distance: Scalar,
    /// How much of the seed's chroma it lost.
    pub lost_retention: Scalar,
    /// How far it misses the hard limits.
    pub hard_deficit: Scalar,
    /// How far it exceeds the contrast ceiling.
    pub ceiling_excess: Scalar,
}

/// The limits of a color fit, with the measurement tolerance already applied.
#[derive(Clone, Debug)]
pub struct ColorLimits {
    pub lower_lightness: Scalar,
    pub upper_lightness: Scalar,
    /// The chroma range, unless every chroma will do.
    pub chroma: Option<(Scalar, Scalar)>,
    pub avoided_lightness: Scalar,
    pub avoided_distance: Scalar,
    pub maximum_contrast: Option<Scalar>,
    /// A ceiling for each background, if there are any.
    pub ceilings: Option<Vec<Scalar>>,
    pub prefers_contrast: bool,
    pub prefers_background: bool,
}

impl ColorLimits {
    /// Whether a passing source is kept as it is: nothing is preferred to it.
    pub open spec fn keeps_source(&self) -> bool {
        !self.prefers_contrast && !self.prefers_background
    }

    /// What feasible candidates are ranked by.
    pub open spec fn rank_of(&self, totals: ColorTotals) -> Seq<Scalar> {
        if self.prefers_contrast {
            seq![
                totals.contrast_gap,
                if self.prefers_background {
                    totals.background_gap
                } else {
                    totals.distance
                },
                totals.lost_retention,
            ]
        } else if self.prefers_background {
            seq![
                totals.background_gap,
                totals.overshoot,
                totals.distance,
                totals.lost_retention,
            ]
        } else {
            seq![totals.distance, totals.overshoot, totals.lost_retention]
        }
    }

    /// What all candidates are ranked by when none is feasible.
    pub open spec fn effort_of(&self, totals: ColorTotals) -> Seq<Scalar> {
        seq![
            totals.hard_deficit,
            totals.ceiling_excess,
            if self.prefers_contrast {
                totals.contrast_gap
            } else if self.prefers_background {
                totals.background_gap
            } else {
                totals.distance
            },
            totals.distance,
            totals.lost_retention,
        ]
    }

    fn rank(&self, totals: ColorTotals) -> (rank: Vec<Scalar>)
        ensures
            rank@ == self.rank_of(totals),
    {
        let rank = if self.prefers_contrast {
            let second = if self.prefers_background {
                totals.background_gap
            } else {
                totals.distance
            };
            vec![totals.contrast_gap, second, totals.lost_retention]
        } else if self.prefers_background {
            vec![totals.background_gap, totals.overshoot, totals.distance, totals.lost_retention]
        } else {
            vec![totals.distance, totals.overshoot, totals.lost_retention]
        };
        assert(rank@ =~= self.rank_of(totals));
        rank
    }

    fn effort(&self, totals: ColorTotals) -> (effort: Vec<Scalar>)
        ensures
            effort@ == self.effort_of(totals),
    {
        let preference = if self.prefers_contrast {
            totals.contrast_gap
        } else if self.prefers_background {
            totals.background_gap
        } else {
            totals.distance
        };
        let effort = vec![
            totals.hard_deficit,
            totals.ceiling_excess,
            preference,
            totals.distance,
            totals.lost_retention,
        ];
        assert(effort@ =~= self.effort_of(totals));
        effort
    }

    /// Whether lightness, chroma and the avoided colors admit the candidate.
    pub open spec fn admits_color(&self, facts: ColorFacts) -> bool {
        &&& !facts.lightness.less(self.lower_lightness)
        &&& !self.upper_lightness.less(facts.lightness)
        &&& self.chroma matches Some((lower, upper)) ==> !facts.chroma.less(lower) && !upper.less(
            facts.chroma,
        )
        &&& forall|i: int|
            0 <= i < facts.avoided@.len() ==> !(#[trigger] facts.avoided@[i]).lightness_gap.less(
                self.avoided_lightness,
            ) && !facts.avoided@[i].distance.less(self.avoided_distance)
    }

    /// Whether the candidate keeps the floor and ceilings on the background.
    pub open spec fn admits_contrast(&self, index: int, facts: ContrastFacts) -> bool {
        &&& facts.meets_floor
        &&& self.maximum_contrast matches Some(maximum) ==> !maximum.less(facts.ratio)
        &&& self.ceilings matches Some(ceilings) ==> (index < ceilings@.len()
            ==> !ceilings@[index].less(facts.ratio))
    }

    /// Whether the candidate is feasible.
    pub open spec fn admits(&self, facts: ColorFacts) -> bool {
        self.admits_color(facts) && forall|i: int|
            0 <= i < facts.contrasts@.len() ==> self.admits_contrast(
                i,
                #[trigger] facts.contrasts@[i],
            )
    }

    /// Whether the candidate is feasible.
    pub fn passes(&self, facts: &ColorFacts) -> (admitted: bool)
        ensures
            admitted == self.admits(*facts),
    {
        if facts.lightness.is_below(self.lower_lightness) || self.upper_lightness.is_below(
            facts.lightness,
        ) {
            return false;
        }
        if let Some((lower, upper)) = self.chroma {
            if facts.chroma.is_below(lower) || upper.is_below(facts.chroma) {
                return false;
            }
        }
        let mut index: usize = 0;
        while index < facts.avoided.len()
            invariant
                index <= facts.avoided@.len(),
                forall|i: int|
                    0 <= i < index ==> !(#[trigger] facts.avoided@[i]).lightness_gap.less(
                        self.avoided_lightness,
                    ) && !facts.avoided@[i].distance.less(self.avoided_distance),
            decreases facts.avoided@.len() - index,
        {
            let other = facts.avoided[index];
            if other.lightness_gap.is_below(self.avoided_lightness) || other.distance.is_below(
                self.avoided_distance,
            ) {
                assert(!self.admits_color(*facts)) by {
                    assert(facts.avoided@[index as int] == other);
                }
                return false;
            }
            index += 1;
        }
        assert(self.admits_color(*facts));
        self.color_contrasts_satisfy(&facts.contrasts)
    }

    /// Whether the candidate keeps the floors and ceilings on every background.
    pub fn color_contrasts_satisfy(&self, contrasts: &Vec<ContrastFacts>) -> (satisfied: bool)
        ensures
            satisfied == forall|i: int|
                0 <= i < contrasts@.len() ==> self.admits_contrast(i, #[trigger] contrasts@[i]),
    {
        let mut index: usize = 0;
        while index < contrasts.len()
            invariant
                index <= contrasts@.len(),
                forall|i: int|
                    0 <= i < index ==> self.admits_contrast(i, #[trigger] contrasts@[i]),
            decreases contrasts@.len() - index,
        {
            let facts = contrasts[index];
            let mut kept = facts.meets_floor;
            if let Some(maximum) = self.maximum_contrast {
                if maximum.is_below(facts.ratio) {
                    kept = false;
                }
            }
            if let Some(ceilings) = &self.ceilings {
                if index < ceilings.len() && ceilings[index].is_below(facts.ratio) {
                    kept = false;
                }
            }
            if !kept {
                assert(!self.admits_contrast(index as int, contrasts@[index as int]));
                return false;
            }
            index += 1;
        }
        true
    }
}

/// What a color fit chooses from: the table, after the source unless a passing
/// source would already have been kept.
pub open spec fn color_pool(source: ColorFacts, table: Seq<ColorFacts>) -> Seq<ColorFacts> {
    seq![source] + table
}

/// The candidates of a color fit. The source is ranked with the table unless it
/// would be kept as it is; it always counts when nothing is feasible.
pub open spec fn color_candidate(limits: ColorLimits, pool: Seq<ColorFacts>, index: int, candidate: Candidate) -> bool {
    &&& candidate.color == pool[index].color
    &&& candidate.effort@ == limits.effort_of(pool[index].totals)
    &&& candidate.rank is Some <==> limits.admits(pool[index]) && !(index == 0
        && limits.keeps_source())
    &&& candidate.rank matches Some(rank) ==> rank@ == limits.rank_of(pool[index].totals)
}

/// Whether `chosen` is the fitted color: the seed itself if it is kept, else the
/// choice among the source and the table.
pub open spec fn is_fitted_color(
    seed: Seq<char>,
    limits: ColorLimits,
    source: ColorFacts,
    table: Seq<ColorFacts>,
    chosen: Seq<char>,
) -> bool {
    if limits.keeps_source() && limits.admits(source) {
        chosen == seed
    } else {
        let pool = color_pool(source, table);
        exists|candidates: Seq<Candidate>, position: int|
            {
                &&& candidates.len() == pool.len()
                &&& forall|i: int|
                    0 <= i < pool.len() ==> color_candidate(
                        limits,
                        pool,
                        i,
                        #[trigger] candidates[i],
                    )
                &&& #[trigger] is_choice(candidates, position)
                &&& 0 <= position < pool.len()
                &&& chosen == pool[position].color.hex_view()
            }
    }
}

fn candidate_of(limits: &ColorLimits, facts: &ColorFacts, kept: bool) -> (candidate: Candidate)
    ensures
        candidate.color == facts.color,
        candidate.effort@ == limits.effort_of(facts.totals),
        candidate.rank is Some <==> limits.admits(*facts) && !kept,
        candidate.rank matches Some(rank) ==> rank@ == limits.rank_of(facts.totals),
{
    let rank = if !kept && limits.passes(facts) {
        Some(limits.rank(facts.totals))
    } else {
        None
    };
    Candidate { color: facts.color, rank, effort: limits.effort(facts.totals) }
}

/// Fits a color: keeps a passing source when nothing is preferred, else takes the
/// best feasible candidate, else the one that misses least.
pub fn fit_color(
    seed: &str,
    limits: &ColorLimits,
    source: &ColorFacts,
    table: &Vec<ColorFacts>,
) -> (chosen: String)
    ensures
        is_fitted_color(seed@, *limits, *source, table@, chosen@),
{
    let kept = !limits.prefers_contrast && !limits.prefers_background;
    if kept && limits.passes(source) {
        return seed.to_owned();
    }
    let ghost pool = color_pool(*source, table@);
    let mut candidates: Vec<Candidate> = Vec::new();
    candidates.push(candidate_of(limits, source, kept));
    let mut index: usize = 0;
    while index < table.len()
        invariant
            index <= table@.len(),
            pool == color_pool(*source, table@),
            candidates@.len() == index + 1,
            forall|i: int|
                0 <= i < candidates@.len() ==> color_candidate(
                    *limits,
                    pool,
                    i,
                    #[trigger] candidates@[i],
                ),
        decreases table@.len() - index,
    {
        assert(pool[index as int + 1] == table@[index as int]);
        candidates.push(candidate_of(limits, &table[index], false));
        index += 1;
    }
    match choose_candidate(&candidates) {
        Some(position) => {
            assert(is_choice(candidates@, position as int));
            assert(color_candidate(*limits, pool, position as int, candidates@[position as int]));
            candidates[position].color.hex()
        },
        None => seed.to_owned(),
    }
}

/// The fitted color keeps every limit whenever some candidate of the table does.
pub proof fn lemma_fit_is_feasible(
    seed: Seq<char>,
    limits: ColorLimits,
    source: ColorFacts,
    table: Seq<ColorFacts>,
    chosen: Seq<char>,
    feasible: int,
)
    requires
        is_fitted_color(seed, limits, source, table, chosen),
        0 <= feasible < table.len(),
        limits.admits(table[feasible]),
    ensures
        (limits.keeps_source() && limits.admits(source) && chosen == seed) || exists|i: int|
            0 <= i < color_pool(source, table).len() && limits.admits(
                #[trigger] color_pool(source, table)[i],
            ) && chosen == color_pool(source, table)[i].color.hex_view(),
{
    if !(limits.keeps_source() && limits.admits(source)) {
        let pool = color_pool(source, table);
        let (candidates, position) = choose|candidates: Seq<Candidate>, position: int|
            {
                &&& candidates.len() == pool.len()
                &&& forall|i: int|
                    0 <= i < pool.len() ==> color_candidate(
                        limits,
                        pool,
                        i,
                        #[trigger] candidates[i],
                    )
                &&& #[trigger] is_choice(candidates, position)
                &&& 0 <= position < pool.len()
                &&& chosen == pool[position].color.hex_view()
            };
        assert(pool[feasible + 1] == table[feasible]);
        assert(color_candidate(limits, pool, feasible + 1, candidates[feasible + 1]));
        lemma_choice_prefers_feasible(candidates, position, feasible + 1);
        assert(color_candidate(limits, pool, position, candidates[position]));
        assert(limits.admits(pool[position]));
    }
}

/// Where no candidate keeps every limit, the fitted color misses the hard limits no further
/// than any color of the table does, black and white among them.
pub proof fn lemma_fit_misses_least(
    seed: Seq<char>,
    limits: ColorLimits,
    source: ColorFacts,
    table: Seq<ColorFacts>,
    chosen: Seq<char>,
    other: int,
)
    requires
        is_fitted_color(seed, limits, source, table, chosen),
        !limits.admits(source),
        forall|i: int| 0 <= i < table.len() ==> !limits.admits(#[trigger] table[i]),
        0 <= other < table.len(),
    ensures
        exists|i: int|
            0 <= i < color_pool(source, table).len() && chosen == (#[trigger] color_pool(
                source,
                table,
            )[i]).color.hex_view() && color_pool(source, table)[i].totals.hard_deficit.place()
                <= table[other].totals.hard_deficit.place(),
{
    let pool = color_pool(source, table);
    let (candidates, position) = choose|candidates: Seq<Candidate>, position: int|
        {
            &&& candidates.len() == pool.len()
            &&& forall|i: int|
                0 <= i < pool.len() ==> color_candidate(limits, pool, i, #[trigger] candidates[i])
            &&& #[trigger] is_choice(candidates, position)
            &&& 0 <= position < pool.len()
            &&& chosen == pool[position].color.hex_view()
        };
    assert forall|i: int| 0 <= i < pool.len() implies (#[trigger] candidates[i]).rank is None by {
        assert(color_candidate(limits, pool, i, candidates[i]));
        if i > 0 {
            assert(pool[i] == table[i - 1]);
        }
    }
    let keys = effort_keys(candidates);
    assert(is_least(keys, position));
    assert(pool[other + 1] == table[other]);
    assert(color_candidate(limits, pool, other + 1, candidates[other + 1]));
    assert(color_candidate(limits, pool, position, candidates[position]));
    let left = color_key(candidates[position].effort@, candidates[position].color);
    let right = color_key(candidates[other + 1].effort@, candidates[other + 1].color);
    assert(keys[other + 1] == Some(right));
    assert(keys[position] == Some(left));
    assert(left[0] == pool[position].totals.hard_deficit.place());
    assert(right[0] == table[other].totals.hard_deficit.place());
    assert(!key_before(right, left));
    assert(pool[position].color.hex_view() == chosen);
}

proof fn lemma_same_candidate_keys(
    limits: ColorLimits,
    pool: Seq<ColorFacts>,
    one: Seq<Candidate>,
    other: Seq<Candidate>,
)
    requires
        one.len() == pool.len(),
        other.len() == pool.len(),
        forall|i: int|
            0 <= i < pool.len() ==> color_candidate(limits, pool, i, #[trigger] one[i]),
        forall|i: int|
            0 <= i < pool.len() ==> color_candidate(limits, pool, i, #[trigger] other[i]),
    ensures
        any_feasible(one) == any_feasible(other),
        feasible_keys(one) == feasible_keys(other),
        effort_keys(one) == effort_keys(other),
{
    assert forall|i: int| 0 <= i < pool.len() implies {
        &&& (#[trigger] one[i]).rank is Some == other[i].rank is Some
        &&& feasible_keys(one)[i] == feasible_keys(other)[i]
        &&& effort_keys(one)[i] == effort_keys(other)[i]
    } by {
        assert(color_candidate(limits, pool, i, one[i]));
        assert(color_candidate(limits, pool, i, other[i]));
    }
    if any_feasible(one) {
        let at = choose|i: int| 0 <= i < one.len() && (#[trigger] one[i]).rank is Some;
        assert(other[at].rank is Some);
    }
    if any_feasible(other) {
        let at = choose|i: int| 0 <= i < other.len() && (#[trigger] other[i]).rank is Some;
        assert(one[at].rank is Some);
    }
    assert forall|i: int| 0 <= i < pool.len() implies feasible_keys(one)[i] == feasible_keys(
        other,
    )[i] by {
        assert(one[i].rank is Some == other[i].rank is Some);
    }
    assert(feasible_keys(one) =~= feasible_keys(other));
    assert forall|i: int| 0 <= i < pool.len() implies effort_keys(one)[i] == effort_keys(
        other,
    )[i] by {
        assert(one[i].rank is Some == other[i].rank is Some);
    }
    assert(effort_keys(one) =~= effort_keys(other));
}

/// What is measured determines the fitted color: two answers to the same request are the
/// same, whatever was fitted before.
pub proof fn lemma_fit_is_determined(
    seed: Seq<char>,
    limits: ColorLimits,
    source: ColorFacts,
    table: Seq<ColorFacts>,
    one: Seq<char>,
    other: Seq<char>,
)
    requires
        is_fitted_color(seed, limits, source, table, one),
        is_fitted_color(seed, limits, source, table, other),
    ensures
        one == other,
{
    if !(limits.keeps_source() && limits.admits(source)) {
        let pool = color_pool(source, table);
        let (first, left) = choose|candidates: Seq<Candidate>, position: int|
            {
                &&& candidates.len() == pool.len()
                &&& forall|i: int|
                    0 <= i < pool.len() ==> color_candidate(
                        limits,
                        pool,
                        i,
                        #[trigger] candidates[i],
                    )
                &&& #[trigger] is_choice(candidates, position)
                &&& 0 <= position < pool.len()
                &&& one == pool[position].color.hex_view()
            };
        let (second, right) = choose|candidates: Seq<Candidate>, position: int|
            {
                &&& candidates.len() == pool.len()
                &&& forall|i: int|
                    0 <= i < pool.len() ==> color_candidate(
                        limits,
                        pool,
                        i,
                        #[trigger] candidates[i],
                    )
                &&& #[trigger] is_choice(candidates, position)
                &&& 0 <= position < pool.len()
                &&& other == pool[position].color.hex_view()
            };
        lemma_same_candidate_keys(limits, pool, first, second);
        assert(is_choice(first, right));
        lemma_choice_is_unique(first, left, right);
    }
}

/// Whether a request asks for nothing but a contrast on one background, and the further a
/// candidate misses it, the lower its contrast is.
pub open spec fn asks_only_contrast(
    limits: ColorLimits,
    floor: Scalar,
    pool: Seq<ColorFacts>,
) -> bool {
    &&& forall|i: int|
        0 <= i < pool.len() ==> {
            &&& (#[trigger] pool[i]).contrasts@.len() == 1
            &&& limits.admits(pool[i]) <==> floor.at_most(pool[i].contrasts@[0].ratio)
        }
    &&& forall|i: int, j: int|
        0 <= i < pool.len() && 0 <= j < pool.len() && !limits.admits(#[trigger] pool[i])
            && !limits.admits(#[trigger] pool[j]) && pool[i].totals.hard_deficit.place()
            <= pool[j].totals.hard_deficit.place() ==> pool[j].contrasts@[0].ratio.at_most(
            pool[i].contrasts@[0].ratio,
        )
}

/// Whether the color at a place of the pool reaches the floor, or else as high a contrast
/// as any other.
pub open spec fn contrasts_best(floor: Scalar, pool: Seq<ColorFacts>, at: int) -> bool {
    ||| floor.at_most(pool[at].contrasts@[0].ratio)
    ||| forall|j: int|
        0 <= j < pool.len() ==> (#[trigger] pool[j]).contrasts@[0].ratio.at_most(
            pool[at].contrasts@[0].ratio,
        )
}

/// The fitted color reaches the contrast that is asked for, or else the highest that any
/// candidate reaches, black and white among them. A seed that reaches it is kept.
pub proof fn lemma_fit_keeps_contrast(
    seed: Seq<char>,
    limits: ColorLimits,
    floor: Scalar,
    source: ColorFacts,
    table: Seq<ColorFacts>,
    chosen: Seq<char>,
)
    requires
        asks_only_contrast(limits, floor, color_pool(source, table)),
        is_fitted_color(seed, limits, source, table, chosen),
    ensures
        exists|i: int|
            0 <= i < color_pool(source, table).len() && (chosen == (#[trigger] color_pool(
                source,
                table,
            )[i]).color.hex_view() || i == 0 && chosen == seed) && contrasts_best(
                floor,
                color_pool(source, table),
                i,
            ),
{
    let pool = color_pool(source, table);
    assert(pool[0] == source);
    if limits.keeps_source() && limits.admits(source) {
        assert(contrasts_best(floor, pool, 0));
    } else {
        let (candidates, position) = choose|candidates: Seq<Candidate>, position: int|
            {
                &&& candidates.len() == pool.len()
                &&& forall|i: int|
                    0 <= i < pool.len() ==> color_candidate(
                        limits,
                        pool,
                        i,
                        #[trigger] candidates[i],
                    )
                &&& #[trigger] is_choice(candidates, position)
                &&& 0 <= position < pool.len()
                &&& chosen == pool[position].color.hex_view()
            };
        assert(color_candidate(limits, pool, position, candidates[position]));
        if !limits.admits(pool[position]) {
            assert(candidates[position].rank is None);
            assert(!any_feasible(candidates));
            let keys = effort_keys(candidates);
            let left = color_key(candidates[position].effort@, candidates[position].color);
            assert forall|j: int| 0 <= j < pool.len() implies (
            #[trigger] pool[j]).contrasts@[0].ratio.at_most(pool[position].contrasts@[0].ratio) by {
                assert(color_candidate(limits, pool, j, candidates[j]));
                assert(candidates[j].rank is None);
                assert(!limits.admits(pool[j]));
                let right = color_key(candidates[j].effort@, candidates[j].color);
                assert(keys[j] == Some(right));
                assert(keys[position] == Some(left));
                assert(!key_before(right, left));
                assert(left[0] == pool[position].totals.hard_deficit.place());
                assert(right[0] == pool[j].totals.hard_deficit.place());
            }
        }
        assert(contrasts_best(floor, pool, position));
        assert(chosen == pool[position].color.hex_view());
    }
}

/// What is measured of a candidate for an opaque state color.
#[derive(Clone, Copy, Debug)]
pub struct StateFacts {
    pub color: Rgb24,
    pub chroma: Scalar,
    /// How far it misses all floors and ceilings together.
    pub deficit: Scalar,
    pub hard_deficit: Scalar,
    pub ceiling_excess: Scalar,
    pub preference_distance: Scalar,
    pub final_distance: Scalar,
    pub overshoot: Scalar,
    pub distance: Scalar,
    pub lost_retention: Scalar,
}

/// The limits of a state color, with the measurement tolerance already applied.
#[derive(Clone, Copy, Debug)]
pub struct StateLimits {
    pub chroma_floor: Option<Scalar>,
    /// The deficit that still counts as none.
    pub slack: Scalar,
    /// Whether a contrast or distance is preferred.
    pub has_preference: bool,
}

impl StateLimits {
    /// Whether the candidate is feasible.
    pub open spec fn admits(self, facts: StateFacts) -> bool {
        &&& self.chroma_floor matches Some(floor) ==> !facts.chroma.less(floor)
        &&& !self.slack.less(facts.deficit)
    }

    /// What feasible candidates are ranked by.
    pub open spec fn rank_of(self, facts: StateFacts) -> Seq<Scalar> {
        if self.has_preference {
            seq![
                facts.preference_distance,
                facts.final_distance,
                facts.distance,
                facts.lost_retention,
            ]
        } else {
            seq![facts.final_distance, facts.overshoot, facts.distance, facts.lost_retention]
        }
    }

    /// What all candidates are ranked by when none is feasible.
    pub open spec fn effort_of(self, facts: StateFacts) -> Seq<Scalar> {
        seq![
            facts.hard_deficit,
            facts.ceiling_excess,
            if self.has_preference {
                facts.preference_distance
            } else {
                facts.distance
            },
            facts.overshoot,
            facts.distance,
            facts.lost_retention,
        ]
    }

    /// The candidate with its ranks.
    pub fn candidate(self, facts: StateFacts) -> (candidate: Candidate)
        ensures
            candidate.color == facts.color,
            candidate.rank is Some <==> self.admits(facts),
            candidate.rank matches Some(rank) ==> rank@ == self.rank_of(facts),
            candidate.effort@ == self.effort_of(facts),
    {
        let colorful = match self.chroma_floor {
            Some(floor) => !facts.chroma.is_below(floor),
            None => true,
        };
        let rank = if colorful && !self.slack.is_below(facts.deficit) {
            let rank = if self.has_preference {
                vec![
                    facts.preference_distance,
                    facts.final_distance,
                    facts.distance,
                    facts.lost_retention,
                ]
            } else {
                vec![facts.final_distance, facts.overshoot, facts.distance, facts.lost_retention]
            };
            assert(rank@ =~= self.rank_of(facts));
            Some(rank)
        } else {
            None
        };
        let preference = if self.has_preference {
            facts.preference_distance
        } else {
            facts.distance
        };
        let effort = vec![
            facts.hard_deficit,
            facts.ceiling_excess,
            preference,
            facts.overshoot,
            facts.distance,
            facts.lost_retention,
        ];
        assert(effort@ =~= self.effort_of(facts));
        Candidate { color: facts.color, rank, effort }
    }
}

/// Whether `candidates` are the measured colors with their ranks.
pub open spec fn ranks_states(
    limits: StateLimits,
    table: Seq<StateFacts>,
    candidates: Seq<Candidate>,
) -> bool {
    &&& candidates.len() == table.len()
    &&& forall|i: int|
        0 <= i < table.len() ==> {
            let candidate = #[trigger] candidates[i];
            &&& candidate.color == table[i].color
            &&& candidate.rank is Some <==> limits.admits(table[i])
            &&& candidate.rank matches Some(rank) ==> rank@ == limits.rank_of(table[i])
            &&& candidate.effort@ == limits.effort_of(table[i])
        }
}

/// Fits an opaque state color: the best feasible candidate, or the one that misses
/// least.
pub fn fit_state(limits: StateLimits, table: &Vec<StateFacts>) -> (chosen: Option<Rgb24>)
    ensures
        chosen is None <==> table@.len() == 0,
        chosen matches Some(color) ==> exists|candidates: Seq<Candidate>, position: int|
            {
                &&& #[trigger] ranks_states(limits, table@, candidates)
                &&& #[trigger] is_choice(candidates, position)
                &&& color == candidates[position].color
            },
{
    let mut candidates: Vec<Candidate> = Vec::new();
    let mut index: usize = 0;
    while index < table.len()
        invariant
            index <= table@.len(),
            ranks_states(limits, table@.take(index as int), candidates@),
        decreases table@.len() - index,
    {
        candidates.push(limits.candidate(table[index]));
        index += 1;
        assert(ranks_states(limits, table@.take(index as int), candidates@));
    }
    assert(table@.take(index as int) =~= table@);
    match choose_candidate(&candidates) {
        Some(position) => {
            assert(is_choice(candidates@, position as int));
            Some(candidates[position].color)
        },
        None => None,
    }
}

/// What is measured of a candidate that must differ from colors chosen before.
#[derive(Clone, Copy, Debug)]
pub struct DistinctFacts {
    pub color: Rgb24,
    pub contrast_deficit: Scalar,
    /// The least distances from the chosen colors.
    pub normal: Scalar,
    pub cvd: Scalar,
    /// The same distances, no larger than their floors and negated.
    pub normal_loss: Scalar,
    pub cvd_loss: Scalar,
    pub overshoot: Scalar,
    pub distance: Scalar,
    pub lost_retention: Scalar,
}

/// The limits of a distinct color, with the measurement tolerance already applied.
#[derive(Clone, Copy, Debug)]
pub struct DistinctLimits {
    pub slack: Scalar,
    pub normal: Scalar,
    pub cvd: Scalar,
}

impl DistinctLimits {
    /// Whether the candidate is readable and stands apart from the chosen colors.
    pub open spec fn admits(self, facts: DistinctFacts) -> bool {
        &&& !self.slack.less(facts.contrast_deficit)
        &&& !facts.normal.less(self.normal)
        &&& self.cvd.at_most(facts.cvd)
    }

    /// Whether the candidate has the ranks that its facts give.
    pub open spec fn is_candidate(self, facts: DistinctFacts, candidate: Candidate) -> bool {
        &&& candidate.color == facts.color
        &&& candidate.rank is Some <==> self.admits(facts)
        &&& candidate.rank matches Some(rank) ==> rank@ == seq![
            facts.distance,
            facts.overshoot,
            facts.lost_retention,
        ]
        &&& candidate.effort@ == seq![
            facts.contrast_deficit,
            facts.normal_loss,
            facts.cvd_loss,
            facts.distance,
            facts.overshoot,
            facts.lost_retention,
        ]
    }

    /// The candidate with its ranks.
    pub fn candidate(self, facts: DistinctFacts) -> (candidate: Candidate)
        ensures
            self.is_candidate(facts, candidate),
    {
        let rank = if !self.slack.is_below(facts.contrast_deficit) && !facts.normal.is_below(
            self.normal,
        ) && self.cvd.is_at_most(facts.cvd) {
            let rank = vec![facts.distance, facts.overshoot, facts.lost_retention];
            assert(rank@ =~= seq![facts.distance, facts.overshoot, facts.lost_retention]);
            Some(rank)
        } else {
            None
        };
        let effort = vec![
            facts.contrast_deficit,
            facts.normal_loss,
            facts.cvd_loss,
            facts.distance,
            facts.overshoot,
            facts.lost_retention,
        ];
        assert(effort@ =~= seq![
            facts.contrast_deficit,
            facts.normal_loss,
            facts.cvd_loss,
            facts.distance,
            facts.overshoot,
            facts.lost_retention,
        ]);
        Candidate { color: facts.color, rank, effort }
    }
}

/// Whether a candidate may be chosen next to the colors chosen before: it is none
/// of them, and no earlier candidate has its color.
pub open spec fn is_fresh(chosen: Seq<Rgb24>, candidates: Seq<Candidate>, index: int) -> bool {
    &&& !chosen.contains(candidates[index].color)
    &&& forall|i: int| 0 <= i < index ==> (#[trigger] candidates[i]).color != candidates[index].color
}

/// The fresh candidates, with the others left out of both rankings.
pub open spec fn is_distinct_choice(
    chosen: Seq<Rgb24>,
    candidates: Seq<Candidate>,
    position: int,
) -> bool {
    let fresh = |index: int| is_fresh(chosen, candidates, index);
    let any = exists|i: int|
        0 <= i < candidates.len() && is_fresh(chosen, candidates, i) && (
        #[trigger] candidates[i]).rank is Some;
    let keys = Seq::new(
        candidates.len(),
        |i: int|
            if !is_fresh(chosen, candidates, i) {
                None
            } else if any {
                match candidates[i].rank {
                    Some(rank) => Some(color_key(rank@, candidates[i].color)),
                    None => None,
                }
            } else {
                Some(color_key(candidates[i].effort@, candidates[i].color))
            },
    );
    is_least(keys, position)
}

fn contains_color(colors: &Vec<Rgb24>, color: Rgb24) -> (found: bool)
    ensures
        found == colors@.contains(color),
{
    let mut index: usize = 0;
    while index < colors.len()
        invariant
            index <= colors@.len(),
            forall|i: int| 0 <= i < index ==> colors@[i] != color,
        decreases colors@.len() - index,
    {
        if colors[index] == color {
            assert(colors@[index as int] == color);
            return true;
        }
        index += 1;
    }
    false
}

fn fresh_flags(chosen: &Vec<Rgb24>, candidates: &Vec<Candidate>) -> (flags: Vec<bool>)
    ensures
        flags@.len() == candidates@.len(),
        forall|i: int|
            0 <= i < flags@.len() ==> #[trigger] flags@[i] == is_fresh(chosen@, candidates@, i),
{
    let mut flags: Vec<bool> = Vec::new();
    let mut index: usize = 0;
    while index < candidates.len()
        invariant
            index <= candidates@.len(),
            flags@.len() == index,
            forall|i: int|
                0 <= i < flags@.len() ==> #[trigger] flags@[i] == is_fresh(chosen@, candidates@, i),
        decreases candidates@.len() - index,
    {
        let color = candidates[index].color;
        let mut fresh = !contains_color(chosen, color);
        let mut earlier: usize = 0;
        while earlier < index
            invariant
                earlier <= index < candidates@.len(),
                color == candidates@[index as int].color,
                fresh == (!chosen@.contains(color) && forall|i: int|
                    0 <= i < earlier ==> (#[trigger] candidates@[i]).color != color),
            decreases index - earlier,
        {
            if candidates[earlier].color == color {
                fresh = false;
            }
            earlier += 1;
        }
        flags.push(fresh);
        index += 1;
    }
    flags
}

/// Chooses one more color next to those chosen before. The first candidate stands
/// in when every candidate is taken.
pub fn choose_distinct(chosen: &Vec<Rgb24>, candidates: &Vec<Candidate>) -> (position: usize)
    requires
        candidates@.len() > 0,
    ensures
        position < candidates@.len(),
        (exists|i: int| 0 <= i < candidates@.len() && #[trigger] is_fresh(chosen@, candidates@, i))
            ==> is_distinct_choice(chosen@, candidates@, position as int),
        !(exists|i: int| 0 <= i < candidates@.len() && #[trigger] is_fresh(chosen@, candidates@, i))
            ==> position == 0,
{
    let flags = fresh_flags(chosen, candidates);
    let mut any = false;
    let mut index: usize = 0;
    while index < candidates.len()
        invariant
            index <= candidates@.len(),
            flags@.len() == candidates@.len(),
            forall|i: int|
                0 <= i < flags@.len() ==> #[trigger] flags@[i] == is_fresh(chosen@, candidates@, i),
            any == exists|i: int|
                0 <= i < index && is_fresh(chosen@, candidates@, i) && (
                #[trigger] candidates@[i]).rank is Some,
        decreases candidates@.len() - index,
    {
        assert(flags@[index as int] == is_fresh(chosen@, candidates@, index as int));
        if flags[index] && candidates[index].rank.is_some() {
            assert(candidates@[index as int].rank is Some);
            any = true;
        }
        index += 1;
    }
    let ghost keys_wanted = Seq::new(
        candidates@.len(),
        |i: int|
            if !is_fresh(chosen@, candidates@, i) {
                None
            } else if any {
                match candidates@[i].rank {
                    Some(rank) => Some(color_key(rank@, candidates@[i].color)),
                    None => None,
                }
            } else {
                Some(color_key(candidates@[i].effort@, candidates@[i].color))
            },
    );
    let mut keys: Vec<Option<Vec<i64>>> = Vec::new();
    let mut next: usize = 0;
    while next < candidates.len()
        invariant
            next <= candidates@.len(),
            flags@.len() == candidates@.len(),
            forall|i: int|
                0 <= i < flags@.len() ==> #[trigger] flags@[i] == is_fresh(chosen@, candidates@, i),
            keys@.len() == next,
            keys_wanted == Seq::new(
                candidates@.len(),
                |i: int|
                    if !is_fresh(chosen@, candidates@, i) {
                        None
                    } else if any {
                        match candidates@[i].rank {
                            Some(rank) => Some(color_key(rank@, candidates@[i].color)),
                            None => None,
                        }
                    } else {
                        Some(color_key(candidates@[i].effort@, candidates@[i].color))
                    },
            ),
            optional_keys(keys@) == keys_wanted.take(next as int),
        decreases candidates@.len() - next,
    {
        let ghost held = optional_keys(keys@);
        assert(flags@[next as int] == is_fresh(chosen@, candidates@, next as int));
        let candidate = &candidates[next];
        let key: Option<Vec<i64>> = if !flags[next] {
            None
        } else if any {
            match &candidate.rank {
                Some(rank) => Some(key_of(rank, candidate.color)),
                None => None,
            }
        } else {
            Some(key_of(&candidate.effort, candidate.color))
        };
        keys.push(key);
        assert(optional_keys(keys@) =~= held.push(keys_wanted[next as int]));
        next += 1;
        assert(optional_keys(keys@) =~= keys_wanted.take(next as int));
    }
    assert(optional_keys(keys@) =~= keys_wanted);
    match least(&keys) {
        Some(position) => {
            assert(keys_wanted[position as int] is Some);
            assert(is_fresh(chosen@, candidates@, position as int));
            position
        },
        None => {
            assert forall|i: int| 0 <= i < candidates@.len() implies !#[trigger] is_fresh(
                chosen@,
                candidates@,
                i,
            ) by {
                assert(keys@[i] is None);
                assert(optional_keys(keys@)[i] == keys_wanted[i]);
                if is_fresh(chosen@, candidates@, i) {
                    if any {
                        let at = choose|k: int|
                            0 <= k < candidates@.len() && is_fresh(chosen@, candidates@, k) && (
                            #[trigger] candidates@[k]).rank is Some;
                        assert(keys@[at] is None);
                        assert(optional_keys(keys@)[at] == keys_wanted[at]);
                    }
                }
            }
            0
        },
    }
}

proof fn lemma_first_with_color(chosen: Seq<Rgb24>, candidates: Seq<Candidate>, at: int) -> (first: int)
    requires
        0 <= at < candidates.len(),
        !chosen.contains(candidates[at].color),
    ensures
        0 <= first <= at,
        is_fresh(chosen, candidates, first),
    decreases at,
{
    if exists|i: int| 0 <= i < at && (#[trigger] candidates[i]).color == candidates[at].color {
        let earlier = choose|i: int|
            0 <= i < at && (#[trigger] candidates[i]).color == candidates[at].color;
        lemma_first_with_color(chosen, candidates, earlier)
    } else {
        at
    }
}

/// A color chosen next to others differs from all of them whenever some candidate
/// does.
pub proof fn lemma_distinct_choice_differs(
    chosen: Seq<Rgb24>,
    candidates: Seq<Candidate>,
    position: int,
    other: int,
)
    requires
        (exists|i: int| 0 <= i < candidates.len() && #[trigger] is_fresh(chosen, candidates, i))
            ==> is_distinct_choice(chosen, candidates, position),
        0 <= other < candidates.len(),
        !chosen.contains(candidates[other].color),
    ensures
        !chosen.contains(candidates[position].color),
{
    let first = lemma_first_with_color(chosen, candidates, other);
    assert(is_fresh(chosen, candidates, first));
    assert(is_distinct_choice(chosen, candidates, position));
}

} // verus!
