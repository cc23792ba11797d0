//! Selection of two colors that stand apart, and greedy spreading of many.

use crate::color::{invalid_hex_message, is_hex, parse_hex, Rgb24};
use crate::order::{
    before, distinct_positions, is_stable_order, key_before, key_views, least, lemma_key_total,
    lemma_key_transitive, optional_keys, rank_key, rank_places, stable_order,
};
use crate::scalar::{Scalar, INFINITE};
use crate::text::{decimal, decimal_of, views};
use crate::{Error, Result};
use vstd::prelude::*;

verus! {

/// The floors that two colors of a pair keep, with the measurement tolerance
/// already applied.
#[derive(Clone, Copy, Debug)]
pub struct PairLimits {
    pub contrast: Scalar,
    pub normal: Scalar,
    pub cvd: Scalar,
    pub lightness: Scalar,
    pub alternative: Option<(Scalar, Scalar, Scalar)>,
}

/// How far two colors stand apart.
#[derive(Clone, Copy, Debug)]
pub struct PairSeparation {
    pub contrast: Scalar,
    pub normal: Scalar,
    pub cvd: Scalar,
    pub lightness: Scalar,
}

impl PairLimits {
    /// Whether the contrast, or both distances, of the alternative are reached.
    pub open spec fn alternative_met(self, pair: PairSeparation) -> bool {
        self.alternative matches Some((contrast, normal, cvd)) ==> contrast.at_most(pair.contrast)
            || (normal.at_most(pair.normal) && cvd.at_most(pair.cvd))
    }

    /// Whether the pair keeps every floor.
    pub open spec fn met(self, pair: PairSeparation) -> bool {
        &&& self.contrast.at_most(pair.contrast)
        &&& self.normal.at_most(pair.normal)
        &&& self.cvd.at_most(pair.cvd)
        &&& self.lightness.at_most(pair.lightness)
        &&& self.alternative_met(pair)
    }

    /// Whether the contrast, or both distances, of the alternative are reached.
    pub fn pair_is_separated(self, pair: PairSeparation) -> (separated: bool)
        ensures
            separated == self.alternative_met(pair),
    {
        match self.alternative {
            None => true,
            Some((contrast, normal, cvd)) => contrast.is_at_most(pair.contrast) || (
            normal.is_at_most(pair.normal) && cvd.is_at_most(pair.cvd)),
        }
    }

    /// Whether the pair keeps every floor.
    pub fn pair_constraints_satisfied(self, pair: PairSeparation) -> (satisfied: bool)
        ensures
            satisfied == self.met(pair),
    {
        self.contrast.is_at_most(pair.contrast) && self.normal.is_at_most(pair.normal)
            && self.cvd.is_at_most(pair.cvd) && self.lightness.is_at_most(pair.lightness)
            && self.pair_is_separated(pair)
    }
}

/// What is measured of one color of a pair on its own.
#[derive(Clone, Debug)]
pub struct PairCandidate {
    pub color: Rgb24,
    /// How far it is from its seed.
    pub distance: Scalar,
    /// How much of its seed's chroma it lost; smaller is better.
    pub lost_retention: Scalar,
    pub background_distance: Scalar,
    /// How far it misses each constraint of its own.
    pub shortfalls: Vec<Scalar>,
    /// The sum of the shortfalls.
    pub deficit: Scalar,
    /// The deficit up to which others count as equally good.
    pub deficit_ceiling: Scalar,
}

/// Whether the candidate misses none of its own constraints.
pub open spec fn keeps_own(slack: Scalar, candidate: PairCandidate) -> bool {
    &&& forall|i: int|
        0 <= i < candidate.shortfalls@.len() ==> !slack.less(#[trigger] candidate.shortfalls@[i])
    &&& !slack.less(candidate.deficit)
}

fn candidate_keeps_own(slack: Scalar, candidate: &PairCandidate) -> (kept: bool)
    ensures
        kept == keeps_own(slack, *candidate),
{
    let mut index: usize = 0;
    while index < candidate.shortfalls.len()
        invariant
            index <= candidate.shortfalls@.len(),
            forall|i: int|
                0 <= i < index ==> !slack.less(#[trigger] candidate.shortfalls@[i]),
        decreases candidate.shortfalls@.len() - index,
    {
        if slack.is_below(candidate.shortfalls[index]) {
            assert(slack.less(candidate.shortfalls@[index as int]));
            return false;
        }
        index += 1;
    }
    !slack.is_below(candidate.deficit)
}

/// What pair candidates are ordered by: the deficit, the distance that matters
/// most, the distance from the seed, the lost chroma and the color.
pub open spec fn pair_candidate_key(candidate: PairCandidate, prefer_background: bool) -> Seq<i64> {
    seq![
        candidate.deficit.place() as i64,
        if prefer_background {
            candidate.background_distance.place() as i64
        } else {
            candidate.distance.place() as i64
        },
        candidate.distance.place() as i64,
        candidate.lost_retention.place() as i64,
        candidate.color.packed() as i64,
    ]
}

/// The positions in `kept` of the candidates it names, by key.
pub open spec fn kept_keys(
    candidates: Seq<PairCandidate>,
    kept: Seq<usize>,
    prefer_background: bool,
) -> Seq<Seq<i64>> {
    kept.map_values(
        |position: usize| pair_candidate_key(candidates[position as int], prefer_background),
    )
}

/// Whether `kept` lists exactly the positions of `flagged`, ascending.
pub open spec fn lists_flagged(flagged: Seq<bool>, kept: Seq<usize>) -> bool {
    &&& forall|i: int, j: int| 0 <= i < j < kept.len() ==> #[trigger] kept[i] < #[trigger] kept[j]
    &&& forall|i: int|
        0 <= i < kept.len() ==> (#[trigger] kept[i]) < flagged.len() && flagged[kept[i] as int]
    &&& forall|p: int| 0 <= p < flagged.len() && #[trigger] flagged[p] ==> kept.contains(p as usize)
}

/// Whether `order` lists the flagged candidates by key; equal keys keep their
/// order.
pub open spec fn orders_flagged(
    candidates: Seq<PairCandidate>,
    flagged: Seq<bool>,
    prefer_background: bool,
    order: Seq<usize>,
) -> bool {
    exists|kept: Seq<usize>, places: Seq<usize>|
        {
            &&& #[trigger] lists_flagged(flagged, kept)
            &&& #[trigger] is_stable_order(kept_keys(candidates, kept, prefer_background), places)
            &&& order == places.map_values(|place: usize| kept[place as int])
        }
}

fn order_flagged(
    candidates: &Vec<PairCandidate>,
    flagged: &Vec<bool>,
    prefer_background: bool,
) -> (order: Vec<usize>)
    requires
        flagged@.len() == candidates@.len(),
    ensures
        orders_flagged(candidates@, flagged@, prefer_background, order@),
        forall|i: int|
            0 <= i < order@.len() ==> (#[trigger] order@[i]) < candidates@.len()
                && flagged@[order@[i] as int],
{
    let mut kept: Vec<usize> = Vec::new();
    let mut keys: Vec<Vec<i64>> = Vec::new();
    let mut index: usize = 0;
    assert(key_views(keys@) =~= kept_keys(candidates@, kept@, prefer_background));
    while index < candidates.len()
        invariant
            flagged@.len() == candidates@.len(),
            index <= candidates@.len(),
            lists_flagged(flagged@.take(index as int), kept@),
            key_views(keys@) == kept_keys(candidates@, kept@, prefer_background),
        decreases candidates@.len() - index,
    {
        let ghost held = kept@;
        let ghost held_keys = key_views(keys@);
        let ghost shorter = flagged@.take(index as int);
        let ghost longer = flagged@.take(index as int + 1);
        assert forall|p: int| 0 <= p < shorter.len() implies #[trigger] longer[p] == shorter[p] by {}
        if flagged[index] {
            let candidate = &candidates[index];
            let mut key: Vec<i64> = Vec::new();
            key.push(candidate.deficit.key());
            if prefer_background {
                key.push(candidate.background_distance.key());
            } else {
                key.push(candidate.distance.key());
            }
            key.push(candidate.distance.key());
            key.push(candidate.lost_retention.key());
            key.push(candidate.color.pack() as i64);
            assert(key@ =~= pair_candidate_key(candidates@[index as int], prefer_background));
            keys.push(key);
            kept.push(index);
            assert(key_views(keys@) =~= held_keys.push(key@));
            assert(kept_keys(candidates@, kept@, prefer_background) =~= kept_keys(
                candidates@,
                held,
                prefer_background,
            ).push(key@));
        }
        assert(lists_flagged(longer, kept@)) by {
            assert forall|i: int| 0 <= i < kept@.len() implies (#[trigger] kept@[i]) < longer.len()
                && longer[kept@[i] as int] by {
                if i < held.len() {
                    assert(held[i] < shorter.len() && shorter[held[i] as int]);
                }
            }
            assert forall|i: int, j: int| 0 <= i < j < kept@.len() implies #[trigger] kept@[i]
                < #[trigger] kept@[j] by {
                assert(held[i] < shorter.len());
                if j < held.len() {
                    assert(held[i] < held[j]);
                }
            }
            assert forall|p: int| 0 <= p < longer.len() && #[trigger] longer[p] implies kept@.contains(
                p as usize,
            ) by {
                if p < shorter.len() {
                    assert(shorter[p]);
                    let at = choose|i: int| 0 <= i < held.len() && held[i] == p as usize;
                    assert(kept@[at] == p as usize);
                } else {
                    assert(kept@[held.len() as int] == index);
                }
            }
        }
        index += 1;
    }
    assert(flagged@.take(index as int) =~= flagged@);
    let places = stable_order(&keys);
    let mut order: Vec<usize> = Vec::new();
    let mut at: usize = 0;
    let ghost wanted = places@.map_values(|place: usize| kept@[place as int]);
    while at < places.len()
        invariant
            at <= places@.len(),
            keys@.len() == kept@.len(),
            is_stable_order(key_views(keys@), places@),
            wanted == places@.map_values(|place: usize| kept@[place as int]),
            order@ == wanted.take(at as int),
        decreases places@.len() - at,
    {
        assert(places@[at as int] < key_views(keys@).len());
        order.push(kept[places[at]]);
        at += 1;
        assert(order@ =~= wanted.take(at as int));
    }
    assert(order@ =~= wanted);
    assert forall|i: int| 0 <= i < order@.len() implies (#[trigger] order@[i]) < candidates@.len()
        && flagged@[order@[i] as int] by {
        assert(places@[i] < key_views(keys@).len());
        assert(order@[i] == kept@[places@[i] as int]);
    }
    assert(is_stable_order(kept_keys(candidates@, kept@, prefer_background), places@));
    order
}

/// Which candidates keep their own constraints.
pub open spec fn own_flags(slack: Scalar, candidates: Seq<PairCandidate>) -> Seq<bool> {
    candidates.map_values(|candidate: PairCandidate| keeps_own(slack, candidate))
}

/// The candidates that keep their own constraints, best first.
pub fn feasible_pair_candidates(
    slack: Scalar,
    candidates: &Vec<PairCandidate>,
    prefer_background: bool,
) -> (order: Vec<usize>)
    ensures
        orders_flagged(candidates@, own_flags(slack, candidates@), prefer_background, order@),
        forall|i: int| 0 <= i < order@.len() ==> (#[trigger] order@[i]) < candidates@.len(),
{
    let mut flagged: Vec<bool> = Vec::new();
    let mut index: usize = 0;
    let ghost wanted = own_flags(slack, candidates@);
    while index < candidates.len()
        invariant
            index <= candidates@.len(),
            wanted == own_flags(slack, candidates@),
            flagged@ == wanted.take(index as int),
        decreases candidates@.len() - index,
    {
        flagged.push(candidate_keeps_own(slack, &candidates[index]));
        index += 1;
        assert(flagged@ =~= wanted.take(index as int));
    }
    assert(flagged@ =~= wanted);
    order_flagged(candidates, &flagged, prefer_background)
}

/// Flags that keep every position.
pub open spec fn all_flags(count: nat) -> Seq<bool> {
    Seq::new(count, |i: int| true)
}

/// Whether `order` is the part of `all` whose deficit is within the ceiling of the
/// best candidate.
pub open spec fn keeps_least_deficit(
    candidates: Seq<PairCandidate>,
    all: Seq<usize>,
    order: Seq<usize>,
) -> bool {
    order == all.filter(
        |position: usize|
            candidates[position as int].deficit.at_most(candidates[all[0] as int].deficit_ceiling),
    )
}

/// The candidates that miss their constraints least, best first.
pub fn best_effort_pair_candidates(
    candidates: &Vec<PairCandidate>,
    prefer_background: bool,
) -> (order: Vec<
    usize,
>)
    ensures
        exists|all: Seq<usize>|
            {
                &&& #[trigger] orders_flagged(
                    candidates@,
                    all_flags(candidates@.len()),
                    prefer_background,
                    all,
                )
                &&& keeps_least_deficit(candidates@, all, order@)
            },
        forall|i: int| 0 <= i < order@.len() ==> (#[trigger] order@[i]) < candidates@.len(),
{
    let mut flagged: Vec<bool> = Vec::new();
    let mut index: usize = 0;
    while index < candidates.len()
        invariant
            index <= candidates@.len(),
            flagged@ == all_flags(index as nat),
        decreases candidates@.len() - index,
    {
        flagged.push(true);
        index += 1;
        assert(flagged@ =~= all_flags(index as nat));
    }
    let all = order_flagged(candidates, &flagged, prefer_background);
    let mut order: Vec<usize> = Vec::new();
    let mut next: usize = 0;
    let ghost wanted = |position: usize|
        candidates@[position as int].deficit.at_most(candidates@[all@[0] as int].deficit_ceiling);
    assert(all@.take(0).filter(wanted) =~= Seq::<usize>::empty()) by {
        assert(all@.take(0) =~= Seq::<usize>::empty());
        reveal(Seq::filter);
    }
    while next < all.len()
        invariant
            next <= all@.len(),
            forall|i: int| 0 <= i < all@.len() ==> (#[trigger] all@[i]) < candidates@.len(),
            wanted == (|position: usize|
                candidates@[position as int].deficit.at_most(
                    candidates@[all@[0] as int].deficit_ceiling,
                )),
            order@ == all@.take(next as int).filter(wanted),
            forall|i: int| 0 <= i < order@.len() ==> (#[trigger] order@[i]) < candidates@.len(),
        decreases all@.len() - next,
    {
        let position = all[next];
        assert(all@.take(next as int + 1).drop_last() =~= all@.take(next as int));
        assert(all@.take(next as int + 1).last() == position);
        proof {
            reveal(Seq::filter);
        }
        assert(all@[0] < candidates@.len() && all@[next as int] < candidates@.len());
        if candidates[position].deficit.is_at_most(candidates[all[0]].deficit_ceiling) {
            order.push(position);
        }
        next += 1;
    }
    assert(all@.take(next as int) =~= all@);
    order
}

/// What is measured of two candidates together.
#[derive(Clone, Debug)]
pub struct PairFacts {
    pub separation: PairSeparation,
    pub rank: Vec<Scalar>,
    pub effort: Vec<Scalar>,
}

/// What measuring gives for two positions.
pub open spec fn measured<F: Fn(usize, usize) -> PairFacts>(
    measure: &F,
    left: usize,
    right: usize,
) -> PairFacts {
    choose|facts: PairFacts| call_ensures(*measure, (left, right), facts)
}

/// Whether two positions can be measured, always with the same result.
pub open spec fn measurable<F: Fn(usize, usize) -> PairFacts>(
    measure: &F,
    left: usize,
    right: usize,
) -> bool {
    &&& call_requires(*measure, (left, right))
    &&& forall|facts: PairFacts|
        #[trigger] call_ensures(*measure, (left, right), facts) ==> facts == measured(
            measure,
            left,
            right,
        )
}

/// Whether every two positions can be measured, always with the same result.
pub open spec fn is_measure<F: Fn(usize, usize) -> PairFacts>(
    measure: &F,
    first: nat,
    second: nat,
) -> bool {
    forall|left: usize, right: usize|
        left < first && right < second ==> #[trigger] measurable(measure, left, right)
}

/// What a ranked pair is ordered by: the rank, then both colors.
pub open spec fn pair_key(rank: Seq<Scalar>, left: Rgb24, right: Rgb24) -> Seq<i64> {
    rank_key(rank).push(left.packed() as i64).push(right.packed() as i64)
}

fn pair_key_of(rank: &Vec<Scalar>, left: Rgb24, right: Rgb24) -> (key: Vec<i64>)
    ensures
        key@ == pair_key(rank@, left, right),
{
    let mut key = rank_places(rank);
    key.push(left.pack() as i64);
    key.push(right.pack() as i64);
    key
}

/// Whether `right` is the first partner of `left` with which the pair keeps every
/// floor.
pub open spec fn is_partner<F: Fn(usize, usize) -> PairFacts>(
    measure: &F,
    limits: PairLimits,
    second: Seq<Rgb24>,
    left: usize,
    right: usize,
) -> bool {
    &&& right < second.len()
    &&& limits.met(measured(measure, left, right).separation)
    &&& forall|r: usize|
        r < right ==> !limits.met((#[trigger] measured(measure, left, r)).separation)
}

/// Whether the pair is the best of all first colors with their first partners.
pub open spec fn is_pair_choice<F: Fn(usize, usize) -> PairFacts>(
    measure: &F,
    limits: PairLimits,
    first: Seq<Rgb24>,
    second: Seq<Rgb24>,
    left: usize,
    right: usize,
) -> bool {
    &&& left < first.len()
    &&& is_partner(measure, limits, second, left, right)
    &&& forall|l: usize, r: usize|
        l < first.len() && #[trigger] is_partner(measure, limits, second, l, r) ==> {
            let key = pair_key(
                measured(measure, left, right).rank@,
                first[left as int],
                second[right as int],
            );
            let other = pair_key(measured(measure, l, r).rank@, first[l as int], second[r as int]);
            &&& !key_before(other, key)
            &&& l < left ==> key_before(key, other)
        }
}

fn first_partner<F: Fn(usize, usize) -> PairFacts>(
    measure: &F,
    limits: PairLimits,
    first: &Vec<Rgb24>,
    second: &Vec<Rgb24>,
    left: usize,
) -> (found: Option<(usize, Vec<i64>)>)
    requires
        left < first@.len(),
        is_measure(measure, first@.len(), second@.len()),
    ensures
        found is None ==> forall|r: usize|
            r < second@.len() ==> !#[trigger] is_partner(measure, limits, second@, left, r),
        found matches Some((right, key)) ==> is_partner(measure, limits, second@, left, right)
            && key@ == pair_key(
            measured(measure, left, right).rank@,
            first@[left as int],
            second@[right as int],
        ),
{
    let mut right: usize = 0;
    while right < second.len()
        invariant
            left < first@.len(),
            is_measure(measure, first@.len(), second@.len()),
            right <= second@.len(),
            forall|r: usize|
                r < right ==> !limits.met((#[trigger] measured(measure, left, r)).separation),
        decreases second@.len() - right,
    {
        assert(measurable(measure, left, right));
        let facts = measure(left, right);
        assert(facts == measured(measure, left, right));
        if limits.pair_constraints_satisfied(facts.separation) {
            let key = pair_key_of(&facts.rank, first[left], second[right]);
            return Some((right, key));
        }
        right += 1;
    }
    None
}

proof fn lemma_partner_unique<F: Fn(usize, usize) -> PairFacts>(
    measure: &F,
    limits: PairLimits,
    second: Seq<Rgb24>,
    left: usize,
    one: usize,
    other: usize,
)
    requires
        is_partner(measure, limits, second, left, one),
        is_partner(measure, limits, second, left, other),
    ensures
        one == other,
{
    if one < other {
        assert(!limits.met(measured(measure, left, one).separation));
    } else if other < one {
        assert(!limits.met(measured(measure, left, other).separation));
    }
}

/// The best pair that keeps every floor: each first color is paired with the first
/// partner it fits, and the best of those pairs is taken.
pub fn fit_pair<F: Fn(usize, usize) -> PairFacts>(
    first: &Vec<Rgb24>,
    second: &Vec<Rgb24>,
    limits: PairLimits,
    measure: &F,
) -> (found: Option<(usize, usize)>)
    requires
        is_measure(measure, first@.len(), second@.len()),
    ensures
        found is None ==> forall|l: usize, r: usize|
            l < first@.len() ==> !#[trigger] is_partner(measure, limits, second@, l, r),
        found matches Some((left, right)) ==> is_pair_choice(
            measure,
            limits,
            first@,
            second@,
            left,
            right,
        ),
{
    let mut partners: Vec<usize> = Vec::new();
    let mut keys: Vec<Option<Vec<i64>>> = Vec::new();
    let mut left: usize = 0;
    while left < first.len()
        invariant
            is_measure(measure, first@.len(), second@.len()),
            left <= first@.len(),
            partners@.len() == left,
            keys@.len() == left,
            forall|l: int|
                0 <= l < left ==> ((#[trigger] keys@[l]) is None ==> forall|r: usize|
                    !#[trigger] is_partner(measure, limits, second@, l as usize, r)),
            forall|l: int|
                0 <= l < left ==> ((#[trigger] keys@[l]) matches Some(key) ==> is_partner(
                    measure,
                    limits,
                    second@,
                    l as usize,
                    partners@[l],
                ) && key@ == pair_key(
                    measured(measure, l as usize, partners@[l]).rank@,
                    first@[l],
                    second@[partners@[l] as int],
                )),
        decreases first@.len() - left,
    {
        match first_partner(measure, limits, first, second, left) {
            Some((right, key)) => {
                partners.push(right);
                keys.push(Some(key));
            },
            None => {
                partners.push(0);
                keys.push(None);
            },
        }
        left += 1;
    }
    match least(&keys) {
        None => {
            assert forall|l: usize, r: usize| l < first@.len() implies !#[trigger] is_partner(
                measure,
                limits,
                second@,
                l,
                r,
            ) by {
                assert(keys@[l as int] is None);
                assert(!is_partner(measure, limits, second@, (l as int) as usize, r));
            }
            None
        },
        Some(position) => {
            let ghost shown = optional_keys(keys@);
            assert(shown[position as int] is Some);
            assert(keys@[position as int] is Some);
            let right = partners[position];
            proof {
                let key = keys@[position as int]->0@;
                assert(shown[position as int] == Some(key));
                assert forall|l: usize, r: usize|
                    l < first@.len() && #[trigger] is_partner(
                        measure,
                        limits,
                        second@,
                        l,
                        r,
                    ) implies {
                    let other = pair_key(
                        measured(measure, l, r).rank@,
                        first@[l as int],
                        second@[r as int],
                    );
                    &&& !key_before(other, key)
                    &&& l < position ==> key_before(key, other)
                } by {
                    if keys@[l as int] is None {
                        assert(!is_partner(measure, limits, second@, (l as int) as usize, r));
                    }
                    lemma_partner_unique(measure, limits, second@, l, r, partners@[l as int]);
                    assert(shown[l as int] == Some(keys@[l as int]->0@));
                }
            }
            Some((position, right))
        },
    }
}

/// Whether the pair misses least of all pairs; the first of equals wins.
pub open spec fn is_effort_choice<F: Fn(usize, usize) -> PairFacts>(
    measure: &F,
    first: Seq<Rgb24>,
    second: Seq<Rgb24>,
    left: usize,
    right: usize,
) -> bool {
    &&& left < first.len()
    &&& right < second.len()
    &&& forall|l: usize, r: usize|
        l < first.len() && r < second.len() ==> {
            let key = pair_key(
                measured(measure, left, right).effort@,
                first[left as int],
                second[right as int],
            );
            let other = pair_key(
                (#[trigger] measured(measure, l, r)).effort@,
                first[l as int],
                second[r as int],
            );
            &&& !key_before(other, key)
            &&& l < left || (l == left && r < right) ==> key_before(key, other)
        }
}

/// The pair that misses least.
pub fn best_effort_pair<F: Fn(usize, usize) -> PairFacts>(
    first: &Vec<Rgb24>,
    second: &Vec<Rgb24>,
    measure: &F,
) -> (found: Option<(usize, usize)>)
    requires
        is_measure(measure, first@.len(), second@.len()),
    ensures
        found is None <==> first@.len() == 0 || second@.len() == 0,
        found matches Some((left, right)) ==> is_effort_choice(
            measure,
            first@,
            second@,
            left,
            right,
        ),
{
    if first.len() == 0 || second.len() == 0 {
        return None;
    }
    let mut best: (usize, usize) = (0, 0);
    assert(measurable(measure, 0, 0));
    let start = measure(0, 0);
    assert(start == measured(measure, 0, 0));
    let mut best_key = pair_key_of(&start.effort, first[0], second[0]);
    let mut left: usize = 0;
    proof {
        lemma_key_total(best_key@, best_key@);
    }
    while left < first.len()
        invariant
            is_measure(measure, first@.len(), second@.len()),
            first@.len() > 0,
            second@.len() > 0,
            left <= first@.len(),
            best.0 < first@.len(),
            best.1 < second@.len(),
            best.0 < left || (best.0 == 0 && best.1 == 0),
            best_key@ == pair_key(
                measured(measure, best.0, best.1).effort@,
                first@[best.0 as int],
                second@[best.1 as int],
            ),
            forall|l: usize, r: usize|
                l < left && r < second@.len() ==> {
                    let other = pair_key(
                        (#[trigger] measured(measure, l, r)).effort@,
                        first@[l as int],
                        second@[r as int],
                    );
                    &&& !key_before(other, best_key@)
                    &&& l < best.0 || (l == best.0 && r < best.1) ==> key_before(best_key@, other)
                },
        decreases first@.len() - left,
    {
        let mut right: usize = 0;
        while right < second.len()
            invariant
                is_measure(measure, first@.len(), second@.len()),
                left < first@.len(),
                right <= second@.len(),
                best.0 < first@.len(),
                best.1 < second@.len(),
                best.0 < left || (best.0 == left && best.1 < right) || (best.0 == 0 && best.1 == 0),
                best_key@ == pair_key(
                    measured(measure, best.0, best.1).effort@,
                    first@[best.0 as int],
                    second@[best.1 as int],
                ),
                forall|l: usize, r: usize|
                    r < second@.len() && (l < left || (l == left && r < right)) ==> {
                        let other = pair_key(
                            (#[trigger] measured(measure, l, r)).effort@,
                            first@[l as int],
                            second@[r as int],
                        );
                        &&& !key_before(other, best_key@)
                        &&& l < best.0 || (l == best.0 && r < best.1) ==> key_before(
                            best_key@,
                            other,
                        )
                    },
            decreases second@.len() - right,
        {
            assert(measurable(measure, left, right));
            let facts = measure(left, right);
            assert(facts == measured(measure, left, right));
            let key = pair_key_of(&facts.effort, first[left], second[right]);
            proof {
                lemma_key_total(key@, best_key@);
                lemma_key_total(key@, key@);
            }
            if before(&key, &best_key) {
                proof {
                    assert forall|l: usize, r: usize|
                        r < second@.len() && (l < left || (l == left && r < right)) implies {
                        let other = pair_key(
                            (#[trigger] measured(measure, l, r)).effort@,
                            first@[l as int],
                            second@[r as int],
                        );
                        &&& !key_before(other, key@)
                        &&& key_before(key@, other)
                    } by {
                        let other = pair_key(
                            measured(measure, l, r).effort@,
                            first@[l as int],
                            second@[r as int],
                        );
                        lemma_key_total(other, best_key@);
                        if other != best_key@ {
                            lemma_key_transitive(key@, best_key@, other);
                        }
                        lemma_key_total(key@, other);
                    }
                }
                best = (left, right);
                best_key = key;
            }
            right += 1;
        }
        left += 1;
    }
    Some(best)
}

/// What a distance gives for two positions.
pub open spec fn apart<F: Fn(usize, usize) -> Scalar>(
    distance: F,
    left: usize,
    right: usize,
) -> Scalar {
    choose|value: Scalar| call_ensures(distance, (left, right), value)
}

/// Whether the distance of every two positions can be taken, always with the same
/// result.
pub open spec fn is_distance<F: Fn(usize, usize) -> Scalar>(distance: F, count: nat) -> bool {
    forall|left: usize, right: usize|
        #![trigger call_requires(distance, (left, right))]
        left < count && right < count ==> call_requires(distance, (left, right)) && forall|
            value: Scalar,
        |
            #[trigger] call_ensures(distance, (left, right), value) ==> value == apart(
                distance,
                left,
                right,
            )
}

/// The least distance from the selected positions.
pub open spec fn clearance<F: Fn(usize, usize) -> Scalar>(
    distance: F,
    selected: Seq<usize>,
    position: usize,
) -> Scalar
    decreases selected.len(),
{
    if selected.len() == 0 {
        Scalar { bits: INFINITE }
    } else {
        clearance(distance, selected.drop_last(), position).smaller(
            apart(distance, selected.last(), position),
        )
    }
}

/// Whether `next` stands farthest from the selected positions; the lower position
/// wins a tie.
pub open spec fn is_farthest<F: Fn(usize, usize) -> Scalar>(
    distance: F,
    count: nat,
    selected: Seq<usize>,
    next: usize,
) -> bool {
    &&& next < count
    &&& !selected.contains(next)
    &&& forall|other: usize|
        other < count && !(#[trigger] selected.contains(other)) ==> {
            let here = clearance(distance, selected, next).place();
            let there = clearance(distance, selected, other).place();
            there < here || (there == here && next <= other)
        }
}

/// Whether `order` starts with the first `prefix` positions and goes on with the
/// farthest of the rest, `limit` positions in all.
pub open spec fn is_spread<F: Fn(usize, usize) -> Scalar>(
    distance: F,
    count: nat,
    prefix: nat,
    limit: nat,
    order: Seq<usize>,
) -> bool {
    &&& order.len() == limit
    &&& distinct_positions(order, count)
    &&& forall|k: int| 0 <= k < prefix ==> #[trigger] order[k] == k
    &&& forall|k: int|
        prefix <= k < order.len() ==> is_farthest(
            distance,
            count,
            order.take(k),
            #[trigger] order[k],
        )
}

/// The first `prefix` positions, then always the position that stands farthest
/// from those selected.
pub fn spread_order<F: Fn(usize, usize) -> Scalar>(
    count: usize,
    prefix: usize,
    limit: usize,
    distance: &F,
) -> (order: Vec<usize>)
    requires
        prefix <= limit <= count,
        is_distance(*distance, count as nat),
    ensures
        is_spread(*distance, count as nat, prefix as nat, limit as nat, order@),
{
    let mut selected: Vec<bool> = Vec::new();
    let mut least_apart: Vec<Scalar> = Vec::new();
    let mut filled: usize = 0;
    while filled < count
        invariant
            filled <= count,
            selected@.len() == filled,
            least_apart@.len() == filled,
            forall|i: int| 0 <= i < filled ==> !#[trigger] selected@[i],
            forall|i: int|
                0 <= i < filled ==> #[trigger] least_apart@[i] == (Scalar { bits: INFINITE }),
        decreases count - filled,
    {
        selected.push(false);
        least_apart.push(Scalar { bits: INFINITE });
        filled += 1;
    }
    let mut order: Vec<usize> = Vec::new();
    while order.len() < limit
        invariant
            prefix <= limit <= count,
            is_distance(*distance, count as nat),
            order@.len() <= limit,
            selected@.len() == count,
            least_apart@.len() == count,
            distinct_positions(order@, count as nat),
            forall|i: int|
                0 <= i < count ==> #[trigger] selected@[i] == order@.contains(i as usize),
            forall|i: int|
                0 <= i < count && !order@.contains(i as usize) ==> #[trigger] least_apart@[i]
                    == clearance(*distance, order@, i as usize),
            forall|k: int| 0 <= k < order@.len() && k < prefix ==> #[trigger] order@[k] == k,
            forall|k: int|
                prefix <= k < order@.len() ==> is_farthest(
                    *distance,
                    count as nat,
                    order@.take(k),
                    #[trigger] order@[k],
                ),
        decreases limit - order@.len(),
    {
        let ghost held = order@;
        let next: usize = if order.len() < prefix {
            order.len()
        } else {
            next_farthest(count, limit, distance, &selected, &least_apart, &order)
        };
        proof {
            if held.len() < prefix {
                if held.contains(next) {
                    let at = choose|i: int| 0 <= i < held.len() && held[i] == next;
                    assert(held[at] == at);
                }
            }
            assert(!held.contains(next));
        }
        order.push(next);
        selected.set(next, true);
        assert(order@.drop_last() =~= held);
        assert forall|i: usize| #[trigger] order@.contains(i) == (held.contains(i) || i == next) by {
            if order@.contains(i) {
                let at = choose|k: int| 0 <= k < order@.len() && order@[k] == i;
                if at < held.len() {
                    assert(held[at] == i);
                }
            }
            if held.contains(i) {
                let at = choose|k: int| 0 <= k < held.len() && held[k] == i;
                assert(order@[at] == i);
            }
            assert(order@[held.len() as int] == next);
        }
        let mut index: usize = 0;
        while index < count
            invariant
                index <= count,
                next < count,
                is_distance(*distance, count as nat),
                selected@.len() == count,
                least_apart@.len() == count,
                order@.len() > 0,
                order@.last() == next,
                order@.drop_last() == held,
                forall|i: int|
                    0 <= i < count ==> #[trigger] selected@[i] == order@.contains(i as usize),
                forall|i: int|
                    index <= i < count && !order@.contains(i as usize) ==> #[trigger] least_apart@[i]
                        == clearance(*distance, held, i as usize),
                forall|i: int|
                    0 <= i < index && !order@.contains(i as usize) ==> #[trigger] least_apart@[i]
                        == clearance(*distance, order@, i as usize),
            decreases count - index,
        {
            if !selected[index] {
                assert(call_requires(*distance, (next, index)));
                let value = distance(next, index);
                assert(value == apart(*distance, next, index));
                assert(!order@.contains(index));
                assert(least_apart@[index as int] == clearance(*distance, held, index));
                let closest = least_apart[index].min(value);
                least_apart.set(index, closest);
            }
            index += 1;
        }
        assert forall|k: int| prefix <= k < order@.len() implies is_farthest(
            *distance,
            count as nat,
            order@.take(k),
            #[trigger] order@[k],
        ) by {
            if k < held.len() {
                assert(order@.take(k) =~= held.take(k));
                assert(held[k] == order@[k]);
            } else {
                assert(order@.take(k) =~= held);
            }
        }
        assert(distinct_positions(order@, count as nat)) by {
            assert forall|i: int, j: int|
                0 <= i < order@.len() && 0 <= j < order@.len() && i != j implies #[trigger] order@[i]
                != #[trigger] order@[j] by {
                if i < held.len() {
                    assert(held.contains(held[i]));
                }
                if j < held.len() {
                    assert(held.contains(held[j]));
                }
            }
        }
    }
    order
}

fn next_farthest<F: Fn(usize, usize) -> Scalar>(
    count: usize,
    limit: usize,
    distance: &F,
    selected: &Vec<bool>,
    least_apart: &Vec<Scalar>,
    order: &Vec<usize>,
) -> (next: usize)
    requires
        order@.len() < limit <= count,
        selected@.len() == count,
        least_apart@.len() == count,
        distinct_positions(order@, count as nat),
        forall|i: int| 0 <= i < count ==> #[trigger] selected@[i] == order@.contains(i as usize),
        forall|i: int|
            0 <= i < count && !order@.contains(i as usize) ==> #[trigger] least_apart@[i]
                == clearance(*distance, order@, i as usize),
    ensures
        is_farthest(*distance, count as nat, order@, next),
{
    let mut found: Option<usize> = None;
    let mut index: usize = 0;
    while index < count
        invariant
            index <= count,
            selected@.len() == count,
            least_apart@.len() == count,
            forall|i: int| 0 <= i < count ==> #[trigger] selected@[i] == order@.contains(i as usize),
            forall|i: int|
                0 <= i < count && !order@.contains(i as usize) ==> #[trigger] least_apart@[i]
                    == clearance(*distance, order@, i as usize),
            found is None ==> forall|other: usize|
                other < index ==> #[trigger] order@.contains(other),
            found matches Some(next) ==> {
                &&& next < index
                &&& !order@.contains(next)
                &&& forall|other: usize|
                    other < index && !(#[trigger] order@.contains(other)) ==> {
                        let here = clearance(*distance, order@, next).place();
                        let there = clearance(*distance, order@, other).place();
                        there < here || (there == here && next <= other)
                    }
            },
        decreases count - index,
    {
        assert(selected@[index as int] == order@.contains(index));
        if !selected[index] {
            assert(least_apart@[index as int] == clearance(*distance, order@, index));
            match found {
                None => {
                    found = Some(index);
                },
                Some(next) => {
                    assert(least_apart@[next as int] == clearance(*distance, order@, next));
                    if least_apart[next].key() < least_apart[index].key() {
                        found = Some(index);
                    }
                },
            }
        }
        index += 1;
    }
    match found {
        Some(next) => next,
        None => {
            proof {
                assert forall|position: usize| position < count implies #[trigger] order@.contains(
                    position,
                ) by {}
                lemma_complete_length(order@, count as nat);
            }
            0
        },
    }
}

proof fn lemma_complete_length(order: Seq<usize>, count: nat)
    requires
        distinct_positions(order, count),
        count <= usize::MAX,
        forall|position: usize| position < count ==> #[trigger] order.contains(position),
    ensures
        count <= order.len(),
{
    let listed = order.map_values(|value: usize| value as int);
    listed.unique_seq_to_set();
    let all = vstd::set_lib::set_int_range(0, count as int);
    vstd::set_lib::lemma_int_range(0, count as int);
    assert(all.subset_of(listed.to_set())) by {
        assert forall|value: int| all.contains(value) implies listed.to_set().contains(value) by {
            assert(order.contains(value as usize));
            let at = choose|i: int| 0 <= i < order.len() && order[i] == value as usize;
            assert(listed[at] == value);
        }
    }
    vstd::set_lib::lemma_len_subset(all, listed.to_set());
    assert(listed.no_duplicates());
}

/// The most colors that are ordered at once.
pub const MAX_ORDERED_COLORS: usize = 1024;

/// Candidates kept for the pair that misses least: the most faithful ones, then
/// those that cover the rest of the color space.
pub const PAIR_BEST_EFFORT_FRONTIER_LIMIT: usize = 256;

pub const FAITHFUL_FRONTIER_PREFIX: usize = 64;

/// Thins out pair candidates: all of them, or the most faithful ones followed by
/// those that stand farthest from the ones taken.
pub fn pair_best_effort_frontier<F: Fn(usize, usize) -> Scalar>(count: usize, distance: &F) -> (frontier: Vec<
    usize,
>)
    requires
        is_distance(*distance, count as nat),
    ensures
        count <= PAIR_BEST_EFFORT_FRONTIER_LIMIT ==> frontier@ == Seq::new(
            count as nat,
            |i: int| i as usize,
        ),
        count > PAIR_BEST_EFFORT_FRONTIER_LIMIT ==> is_spread(
            *distance,
            count as nat,
            FAITHFUL_FRONTIER_PREFIX as nat,
            PAIR_BEST_EFFORT_FRONTIER_LIMIT as nat,
            frontier@,
        ),
{
    if count <= PAIR_BEST_EFFORT_FRONTIER_LIMIT {
        let mut frontier: Vec<usize> = Vec::new();
        let mut index: usize = 0;
        while index < count
            invariant
                index <= count,
                frontier@ == Seq::new(index as nat, |i: int| i as usize),
            decreases count - index,
        {
            frontier.push(index);
            index += 1;
            assert(frontier@ =~= Seq::new(index as nat, |i: int| i as usize));
        }
        return frontier;
    }
    spread_order(count, FAITHFUL_FRONTIER_PREFIX, PAIR_BEST_EFFORT_FRONTIER_LIMIT, distance)
}

/// The message about the first thing that is wrong with colors to be ordered.
pub open spec fn ordering_fault(values: Seq<Seq<char>>, from: int) -> Option<Seq<char>>
    decreases values.len() - from,
{
    if from < 0 || from >= values.len() {
        None
    } else if !is_hex(values[from]) {
        Some(invalid_hex_message(values[from]))
    } else {
        ordering_fault(values, from + 1)
    }
}

/// The message for too many colors.
pub open spec fn too_many_message(count: nat) -> Seq<char> {
    "CVD ordering accepts at most 1024 colors, got "@ + decimal_of(count)
}

/// How many colors an ordering starts with: the first, if there is one.
pub open spec fn start_count(count: nat) -> nat {
    if count == 0 {
        0
    } else {
        1
    }
}

/// Orders colors so that each stands as far as possible from those before it,
/// starting with the first.
pub fn cvd_greedy_order<F: Fn(usize, usize) -> Scalar>(
    values: &Vec<String>,
    distance: &F,
) -> (result: Result<
    Vec<String>,
>)
    requires
        is_distance(*distance, values@.len()),
    ensures
        result is Ok <==> values@.len() <= MAX_ORDERED_COLORS && ordering_fault(
            views(values@),
            0,
        ) is None,
        result matches Ok(ordered) ==> exists|order: Seq<usize>|
            {
                &&& #[trigger] is_spread(
                    *distance,
                    values@.len(),
                    start_count(values@.len()),
                    values@.len(),
                    order,
                )
                &&& views(ordered@) == order.map_values(|at: usize| views(values@)[at as int])
            },
        result matches Err(error) ==> error.is_invalid(
            if values@.len() > MAX_ORDERED_COLORS {
                too_many_message(values@.len())
            } else {
                ordering_fault(views(values@), 0)->0
            },
        ),
{
    let ghost all = views(values@);
    if values.len() > MAX_ORDERED_COLORS {
        let mut message = "CVD ordering accepts at most 1024 colors, got ".to_owned();
        message.append(decimal(values.len()).as_str());
        return Err(Error::invalid(message));
    }
    let mut index: usize = 0;
    while index < values.len()
        invariant
            all == views(values@),
            values@.len() <= MAX_ORDERED_COLORS,
            index <= values@.len(),
            ordering_fault(all, 0) == ordering_fault(all, index as int),
        decreases values@.len() - index,
    {
        assert(all[index as int] == values@[index as int]@);
        match parse_hex(values[index].as_str()) {
            Ok(_) => {},
            Err(error) => {
                return Err(error);
            },
        }
        index += 1;
    }
    let prefix: usize = if values.len() == 0 {
        0
    } else {
        1
    };
    let order = spread_order(values.len(), prefix, values.len(), distance);
    assert(is_spread(
        *distance,
        values@.len(),
        start_count(values@.len()),
        values@.len(),
        order@,
    ));
    let mut ordered: Vec<String> = Vec::new();
    let mut next: usize = 0;
    let ghost wanted = order@.map_values(|at: usize| all[at as int]);
    assert(views(ordered@) =~= wanted.take(0));
    while next < order.len()
        invariant
            all == views(values@),
            next <= order@.len(),
            distinct_positions(order@, values@.len()),
            wanted == order@.map_values(|at: usize| all[at as int]),
            views(ordered@) == wanted.take(next as int),
        decreases order@.len() - next,
    {
        assert(order@[next as int] < values@.len());
        let ghost held = views(ordered@);
        let value = values[order[next]].clone();
        ordered.push(value);
        assert(views(ordered@) =~= held.push(value@));
        next += 1;
        assert(views(ordered@) =~= wanted.take(next as int));
    }
    assert(wanted.take(next as int) =~= wanted);
    Ok(ordered)
}

} // verus!
