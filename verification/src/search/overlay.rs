//! Selection of translucent fills, alone and in pairs.

use crate::color::Rgba;
use crate::order::{
    before, is_least, is_stable_order, key_before, key_views, least, lemma_key_total,
    lemma_key_transitive, optional_keys, rank_key, rank_places, stable_before, stable_order,
};
use crate::scalar::Scalar;
use crate::search::pair::{is_measure, measurable, measured, PairFacts, PairLimits};
use crate::search::pair_rank::{prefix_of, rank_prefix};
use crate::search::scan::{
    is_least_pair, lemma_scan_finds_least, scan_pairs, starts_with, Cell, Grid,
};
use vstd::prelude::*;

verus! {

/// The alphas that are tried: twentieths of full opacity from a tenth on.
pub open spec fn is_grid_alpha(alpha: int) -> bool {
    exists|step: int| 2 <= step <= 20 && alpha == (#[trigger] (step * 255) + 10) / 20
}

/// Whether an alpha is tried between two bounds.
pub open spec fn is_tried_alpha(minimum: u8, maximum: u8, alpha: int) -> bool {
    ||| is_grid_alpha(alpha) && minimum <= alpha <= maximum
    ||| alpha == minimum && minimum <= maximum
    ||| alpha == maximum && maximum > 0
}

/// Whether `values` are exactly the tried alphas, ascending.
pub open spec fn lists_alphas(minimum: u8, maximum: u8, values: Seq<u8>) -> bool {
    &&& forall|i: int, j: int| 0 <= i < j < values.len() ==> #[trigger] values[i] < #[trigger] values[j]
    &&& forall|i: int|
        0 <= i < values.len() ==> is_tried_alpha(minimum, maximum, #[trigger] values[i] as int)
    &&& forall|alpha: u8|
        #[trigger] is_tried_alpha(minimum, maximum, alpha as int) ==> values.contains(alpha)
}

fn on_grid(alpha: u8) -> (grid: bool)
    ensures
        grid == is_grid_alpha(alpha as int),
{
    let mut step: u32 = 2;
    while step <= 20
        invariant
            2 <= step <= 21,
            forall|s: int| 2 <= s < step ==> alpha != (#[trigger] (s * 255) + 10) / 20,
        decreases 21 - step,
    {
        if alpha as u32 == (step * 255 + 10) / 20 {
            assert(alpha == ((step as int * 255) + 10) / 20);
            return true;
        }
        step += 1;
    }
    false
}

/// The alphas to try between two bounds, ascending.
pub fn alpha_values(minimum_alpha: u8, maximum_alpha: u8) -> (values: Vec<u8>)
    ensures
        lists_alphas(minimum_alpha, maximum_alpha, values@),
{
    let mut values: Vec<u8> = Vec::new();
    let mut alpha: u16 = 0;
    while alpha < 256
        invariant
            alpha <= 256,
            forall|i: int, j: int|
                0 <= i < j < values@.len() ==> #[trigger] values@[i] < #[trigger] values@[j],
            forall|i: int|
                0 <= i < values@.len() ==> (#[trigger] values@[i]) < alpha && is_tried_alpha(
                    minimum_alpha,
                    maximum_alpha,
                    values@[i] as int,
                ),
            forall|tried: u8|
                tried < alpha && #[trigger] is_tried_alpha(
                    minimum_alpha,
                    maximum_alpha,
                    tried as int,
                ) ==> values@.contains(tried),
        decreases 256 - alpha,
    {
        let value = alpha as u8;
        let tried = (on_grid(value) && minimum_alpha <= value && value <= maximum_alpha) || (value
            == minimum_alpha && minimum_alpha <= maximum_alpha) || (value == maximum_alpha
            && maximum_alpha > 0);
        let ghost held = values@;
        if tried {
            values.push(value);
            assert forall|other: u8| held.contains(other) implies values@.contains(other) by {
                let at = choose|i: int| 0 <= i < held.len() && held[i] == other;
                assert(values@[at] == other);
            }
            assert(values@[held.len() as int] == value);
        }
        alpha += 1;
    }
    values
}

/// The alphas to try between two bounds that are above a floor, ascending.
pub fn alpha_values_above(minimum_alpha: u8, floor: u8, maximum_alpha: u8) -> (values: Vec<u8>)
    ensures
        exists|all: Seq<u8>|
            {
                &&& #[trigger] lists_alphas(minimum_alpha, maximum_alpha, all)
                &&& values@ == all.filter(|alpha: u8| alpha > floor)
            },
{
    let all = alpha_values(minimum_alpha, maximum_alpha);
    let mut values: Vec<u8> = Vec::new();
    let mut index: usize = 0;
    let ghost above = |alpha: u8| alpha > floor;
    assert(all@.take(0).filter(above) =~= Seq::<u8>::empty()) by {
        assert(all@.take(0) =~= Seq::<u8>::empty());
        reveal(Seq::filter);
    }
    while index < all.len()
        invariant
            index <= all@.len(),
            above == (|alpha: u8| alpha > floor),
            values@ == all@.take(index as int).filter(above),
        decreases all@.len() - index,
    {
        assert(all@.take(index as int + 1).drop_last() =~= all@.take(index as int));
        proof {
            reveal(Seq::filter);
        }
        if all[index] > floor {
            values.push(all[index]);
        }
        index += 1;
    }
    assert(all@.take(index as int) =~= all@);
    values
}

/// A translucent fill with its rank.
#[derive(Clone, Debug)]
pub struct FillCandidate {
    pub emitted: Rgba,
    pub rank: Vec<Scalar>,
    pub source_chroma: Scalar,
}

/// A number that orders alphas as hex texts do: opaque first.
pub open spec fn hex_alpha(alpha: u8) -> int {
    if alpha == 255 {
        -1
    } else {
        alpha as int
    }
}

/// What fills are ordered by: the rank, then the hex text.
pub open spec fn fill_key(candidate: FillCandidate) -> Seq<i64> {
    rank_key(candidate.rank@).push(candidate.emitted.rgb().packed() as i64).push(
        hex_alpha(candidate.emitted.a) as i64,
    )
}

fn key_of_fill(candidate: &FillCandidate) -> (key: Vec<i64>)
    ensures
        key@ == fill_key(*candidate),
{
    let mut key = rank_places(&candidate.rank);
    key.push(candidate.emitted.rgb24().pack() as i64);
    key.push(alpha_place(candidate.emitted.a));
    key
}

fn alpha_place(alpha: u8) -> (place: i64)
    ensures
        place == hex_alpha(alpha),
{
    if alpha == 255 {
        -1
    } else {
        alpha as i64
    }
}

/// Equal ranks are ordered as the hex texts of the fills.
pub proof fn lemma_fill_order_is_hex_order(left: FillCandidate, right: FillCandidate)
    requires
        left.rank@ == right.rank@,
    ensures
        key_before(fill_key(left), fill_key(right)) == left.emitted.hex_less(right.emitted),
{
    let prefix = rank_key(left.rank@);
    let a = seq![left.emitted.rgb().packed() as i64, hex_alpha(left.emitted.a) as i64];
    let b = seq![right.emitted.rgb().packed() as i64, hex_alpha(right.emitted.a) as i64];
    assert(fill_key(left) =~= prefix + a);
    assert(fill_key(right) =~= prefix + b);
    lemma_common_prefix(prefix, a, b);
    reveal_with_fuel(key_before, 3);
    assert(a.drop_first() =~= seq![hex_alpha(left.emitted.a) as i64]);
    assert(b.drop_first() =~= seq![hex_alpha(right.emitted.a) as i64]);
    assert(a.drop_first().drop_first() =~= Seq::<i64>::empty());
    assert(b.drop_first().drop_first() =~= Seq::<i64>::empty());
}

proof fn lemma_common_prefix(prefix: Seq<i64>, left: Seq<i64>, right: Seq<i64>)
    requires
        left.len() > 0,
        right.len() > 0,
    ensures
        key_before(prefix + left, prefix + right) == key_before(left, right),
    decreases prefix.len(),
{
    if prefix.len() == 0 {
        assert(prefix + left =~= left);
        assert(prefix + right =~= right);
    } else {
        lemma_common_prefix(prefix.drop_first(), left, right);
        assert((prefix + left).drop_first() =~= prefix.drop_first() + left);
        assert((prefix + right).drop_first() =~= prefix.drop_first() + right);
    }
}

/// The keys of the fills that exist.
pub open spec fn fill_keys(candidates: Seq<Option<FillCandidate>>) -> Seq<Option<Seq<i64>>> {
    candidates.map_values(
        |candidate: Option<FillCandidate>|
            match candidate {
                Some(candidate) => Some(fill_key(candidate)),
                None => None,
            },
    )
}

/// Whether `position` is the last fill that exists.
pub open spec fn is_highest(candidates: Seq<Option<FillCandidate>>, position: int) -> bool {
    &&& 0 <= position < candidates.len()
    &&& candidates[position] is Some
    &&& forall|i: int| position < i < candidates.len() ==> (#[trigger] candidates[i]) is None
}

/// The best of the fills tried with ascending alphas, and the one with the highest
/// alpha.
pub fn select_alpha_candidates(candidates: &Vec<Option<FillCandidate>>) -> (selected: (
    Option<usize>,
    Option<usize>,
))
    ensures
        selected.0 is None <==> forall|i: int|
            0 <= i < candidates@.len() ==> (#[trigger] candidates@[i]) is None,
        selected.0 is None <==> selected.1 is None,
        selected.0 matches Some(best) ==> is_least(fill_keys(candidates@), best as int),
        selected.1 matches Some(highest) ==> is_highest(candidates@, highest as int),
{
    let mut keys: Vec<Option<Vec<i64>>> = Vec::new();
    let mut highest: Option<usize> = None;
    let mut index: usize = 0;
    while index < candidates.len()
        invariant
            index <= candidates@.len(),
            keys@.len() == index,
            optional_keys(keys@) == fill_keys(candidates@).take(index as int),
            highest is None ==> forall|i: int|
                0 <= i < index ==> (#[trigger] candidates@[i]) is None,
            highest matches Some(position) ==> {
                &&& position < index
                &&& candidates@[position as int] is Some
                &&& forall|i: int| position < i < index ==> (#[trigger] candidates@[i]) is None
            },
        decreases candidates@.len() - index,
    {
        let ghost held = optional_keys(keys@);
        match &candidates[index] {
            Some(candidate) => {
                keys.push(Some(key_of_fill(candidate)));
                highest = Some(index);
            },
            None => {
                keys.push(None);
            },
        }
        assert(optional_keys(keys@) =~= held.push(fill_keys(candidates@)[index as int]));
        index += 1;
        assert(optional_keys(keys@) =~= fill_keys(candidates@).take(index as int));
    }
    assert(optional_keys(keys@) =~= fill_keys(candidates@));
    let best = least(&keys);
    assert forall|i: int| 0 <= i < candidates@.len() implies ((#[trigger] candidates@[i])
        is None <==> keys@[i] is None) by {
        assert(optional_keys(keys@)[i] == fill_keys(candidates@)[i]);
    }
    assert(best is None <==> highest is None) by {
        if best is None {
            if let Some(position) = highest {
                assert(candidates@[position as int] is Some);
                assert(keys@[position as int] is None);
            }
        }
        if highest is None {
            if let Some(position) = best {
                assert(fill_keys(candidates@)[position as int] is Some);
                assert(candidates@[position as int] is None);
            }
        }
    }
    (best, highest)
}

/// Whether a color is that of the best fill.
pub open spec fn is_best_fill(candidates: Seq<Option<FillCandidate>>, color: Rgba) -> bool {
    exists|i: int|
        #[trigger] is_least(fill_keys(candidates), i) && candidates[i]->0.emitted == color
}

/// The fill to use: the source's best, or else the table's best. Both lists hold
/// the feasible fills in the order in which they were tried.
pub fn find_feasible_overlay(
    source: &Vec<Option<FillCandidate>>,
    table: &Vec<Option<FillCandidate>>,
) -> (found: Option<Rgba>)
    ensures
        found is None <==> (forall|i: int|
            0 <= i < source@.len() ==> (#[trigger] source@[i]) is None) && (forall|i: int|
            0 <= i < table@.len() ==> (#[trigger] table@[i]) is None),
        found matches Some(color) ==> if exists|k: int|
            0 <= k < source@.len() && (#[trigger] source@[k]) is Some {
            is_best_fill(source@, color)
        } else {
            is_best_fill(table@, color)
        },
{
    if let (Some(best), _) = select_alpha_candidates(source) {
        assert(fill_keys(source@)[best as int] is Some);
        assert(is_least(fill_keys(source@), best as int));
        if let Some(candidate) = &source[best] {
            assert(source@[best as int] is Some);
            return Some(candidate.emitted);
        }
    }
    match select_alpha_candidates(table) {
        (Some(best), _) => {
            assert(fill_keys(table@)[best as int] is Some);
            assert(is_least(fill_keys(table@), best as int));
            match &table[best] {
                Some(candidate) => Some(candidate.emitted),
                None => None,
            }
        },
        (None, _) => None,
    }
}

/// Whether a color is that of the least fill of the source and the table together;
/// the source's fills win a tie.
pub open spec fn is_least_effort(
    source: Seq<FillCandidate>,
    table: Seq<FillCandidate>,
    color: Rgba,
) -> bool {
    exists|i: int|
        {
            &&& #[trigger] is_least(effort_fill_keys(source + table), i)
            &&& (source + table)[i].emitted == color
        }
}

/// The keys of fills that all exist.
pub open spec fn effort_fill_keys(candidates: Seq<FillCandidate>) -> Seq<Option<Seq<i64>>> {
    candidates.map_values(|candidate: FillCandidate| Some(fill_key(candidate)))
}

/// The fill that misses least.
pub fn find_best_effort_overlay(
    source: &Vec<FillCandidate>,
    table: &Vec<FillCandidate>,
) -> (found: Option<
    Rgba,
>)
    ensures
        found is None <==> source@.len() == 0 && table@.len() == 0,
        found matches Some(color) ==> is_least_effort(source@, table@, color),
{
    let ghost all = source@ + table@;
    let mut keys: Vec<Option<Vec<i64>>> = Vec::new();
    let mut index: usize = 0;
    assert(optional_keys(keys@) =~= effort_fill_keys(all).take(0));
    while index < source.len()
        invariant
            all == source@ + table@,
            index <= source@.len(),
            keys@.len() == index,
            optional_keys(keys@) == effort_fill_keys(all).take(index as int),
        decreases source@.len() - index,
    {
        let ghost held = optional_keys(keys@);
        keys.push(Some(key_of_fill(&source[index])));
        assert(optional_keys(keys@) =~= held.push(effort_fill_keys(all)[index as int]));
        index += 1;
        assert(optional_keys(keys@) =~= effort_fill_keys(all).take(index as int));
    }
    let mut next: usize = 0;
    while next < table.len()
        invariant
            all == source@ + table@,
            next <= table@.len(),
            keys@.len() == source@.len() + next,
            optional_keys(keys@) == effort_fill_keys(all).take(source@.len() + next),
        decreases table@.len() - next,
    {
        let ghost held = optional_keys(keys@);
        assert(all[source@.len() + next] == table@[next as int]);
        keys.push(Some(key_of_fill(&table[next])));
        assert(optional_keys(keys@) =~= held.push(effort_fill_keys(all)[source@.len() + next]));
        next += 1;
        assert(optional_keys(keys@) =~= effort_fill_keys(all).take(source@.len() + next));
    }
    assert(optional_keys(keys@) =~= effort_fill_keys(all));
    match least(&keys) {
        None => {
            assert(keys@.len() == 0) by {
                if keys@.len() > 0 {
                    assert(optional_keys(keys@)[0] == effort_fill_keys(all)[0]);
                    assert(keys@[0] is None);
                }
            }
            None
        },
        Some(position) => {
            assert(is_least(effort_fill_keys(all), position as int));
            if position < source.len() {
                Some(source[position].emitted)
            } else {
                Some(table[position - source.len()].emitted)
            }
        },
    }
}

/// What a [`FillCandidate`] holds.
pub struct FillView {
    pub emitted: Rgba,
    pub rank: Seq<Scalar>,
    pub source_chroma: Scalar,
}

impl View for FillCandidate {
    type V = FillView;

    open spec fn view(&self) -> FillView {
        FillView { emitted: self.emitted, rank: self.rank@, source_chroma: self.source_chroma }
    }
}

/// What a list of fills holds.
pub open spec fn fill_views(candidates: Seq<FillCandidate>) -> Seq<FillView> {
    candidates.map_values(|candidate: FillCandidate| candidate@)
}

/// Whether some fill exists.
pub open spec fn any_fill(group: Seq<Option<FillCandidate>>) -> bool {
    exists|i: int| 0 <= i < group.len() && (#[trigger] group[i]) is Some
}

/// The best fill of a group.
pub open spec fn best_pick(group: Seq<Option<FillCandidate>>) -> FillView {
    group[choose|i: int| is_least(fill_keys(group), i)]->0@
}

/// The fill of a group with the highest alpha.
pub open spec fn highest_pick(group: Seq<Option<FillCandidate>>) -> FillView {
    group[choose|i: int| is_highest(group, i)]->0@
}

/// The fills of each group that are worth pairing: the best one and the one with
/// the highest alpha.
pub open spec fn group_picks(groups: Seq<Vec<Option<FillCandidate>>>) -> Seq<FillView>
    decreases groups.len(),
{
    if groups.len() == 0 {
        Seq::empty()
    } else {
        let earlier = group_picks(groups.drop_last());
        let group = groups.last()@;
        if any_fill(group) {
            earlier.push(best_pick(group)).push(highest_pick(group))
        } else {
            earlier
        }
    }
}

/// The fills to pair: those of every group, then the source's best.
pub open spec fn pairing_fills(
    groups: Seq<Vec<Option<FillCandidate>>>,
    source: Seq<Option<FillCandidate>>,
) -> Seq<FillView> {
    if any_fill(source) {
        group_picks(groups).push(best_pick(source))
    } else {
        group_picks(groups)
    }
}

fn copy_fill(candidate: &FillCandidate) -> (copied: FillCandidate)
    ensures
        copied@ == candidate@,
{
    let mut rank: Vec<Scalar> = Vec::new();
    let mut index: usize = 0;
    while index < candidate.rank.len()
        invariant
            index <= candidate.rank@.len(),
            rank@ == candidate.rank@.take(index as int),
        decreases candidate.rank@.len() - index,
    {
        rank.push(candidate.rank[index]);
        index += 1;
        assert(rank@ =~= candidate.rank@.take(index as int));
    }
    assert(rank@ =~= candidate.rank@);
    FillCandidate {
        emitted: candidate.emitted,
        rank,
        source_chroma: candidate.source_chroma,
    }
}

pub(crate) proof fn lemma_picks_unique(group: Seq<Option<FillCandidate>>, best: int, highest: int)
    requires
        is_least(fill_keys(group), best),
        is_highest(group, highest),
    ensures
        any_fill(group),
        group[best] is Some,
        best_pick(group) == group[best]->0@,
        highest_pick(group) == group[highest]->0@,
{
    let keys = fill_keys(group);
    let other = choose|i: int| is_least(keys, i);
    assert(keys[best] is Some && keys[other] is Some);
    let top = choose|i: int| is_highest(group, i);
    assert(is_highest(group, top));
    if top < highest {
        assert(group[highest] is None);
    } else if highest < top {
        assert(group[top] is None);
    }
}

/// Gathers the fills to pair from the fills tried for each color, in ascending
/// order of alpha.
pub fn gather_fills(
    groups: &Vec<Vec<Option<FillCandidate>>>,
    source: &Vec<Option<FillCandidate>>,
) -> (fills: Vec<FillCandidate>)
    ensures
        fill_views(fills@) == pairing_fills(groups@, source@),
{
    let mut fills: Vec<FillCandidate> = Vec::new();
    let mut index: usize = 0;
    assert(fill_views(fills@) =~= group_picks(groups@.take(0)));
    while index < groups.len()
        invariant
            index <= groups@.len(),
            fill_views(fills@) == group_picks(groups@.take(index as int)),
        decreases groups@.len() - index,
    {
        assert(groups@.take(index as int + 1).drop_last() =~= groups@.take(index as int));
        let group = &groups[index];
        if let (Some(best), Some(highest)) = select_alpha_candidates(group) {
            proof {
                lemma_picks_unique(group@, best as int, highest as int);
            }
            if let (Some(first), Some(last)) = (&group[best], &group[highest]) {
                let ghost held = fill_views(fills@);
                fills.push(copy_fill(first));
                fills.push(copy_fill(last));
                assert(fill_views(fills@) =~= held.push(first@).push(last@));
            }
        }
        index += 1;
    }
    assert(groups@.take(index as int) =~= groups@);
    if let (Some(best), Some(highest)) = select_alpha_candidates(source) {
        proof {
            lemma_picks_unique(source@, best as int, highest as int);
        }
        if let Some(first) = &source[best] {
            let ghost held = fill_views(fills@);
            fills.push(copy_fill(first));
            assert(fill_views(fills@) =~= held.push(first@));
        }
    }
    fills
}

/// What stands against a fill on one background, and how it looks there.
#[derive(Clone, Debug)]
pub struct SceneFacts {
    pub contrast_met: bool,
    pub references_met: Vec<bool>,
    pub foregrounds_met: Vec<bool>,
    pub ratio: Scalar,
    pub distance: Scalar,
    pub reference_distances: Vec<Scalar>,
    pub runtime: Option<RuntimeFacts>,
}

/// What stands against a fill at its runtime opacity.
#[derive(Clone, Debug)]
pub struct RuntimeFacts {
    pub target_met: bool,
    pub references_met: Vec<bool>,
    pub background_steps_met: Vec<bool>,
    pub foregrounds_met: Vec<bool>,
    pub adjusted_ratio: Scalar,
    pub distance: Scalar,
    pub reference_distances: Vec<Scalar>,
}

/// Which foregrounds stay readable over a fill on a further background.
#[derive(Clone, Debug)]
pub struct ReadabilityFacts {
    pub foregrounds_met: Vec<bool>,
    pub runtime_foregrounds_met: Vec<bool>,
}

/// The sums that fills are ranked by.
#[derive(Clone, Copy, Debug)]
pub struct FillTotals {
    pub hard_deficit: Scalar,
    pub ceiling_excess: Scalar,
    pub overshoot: Scalar,
    pub final_distance: Scalar,
    pub preference_distance: Scalar,
    pub distance: Scalar,
    pub lost_retention: Scalar,
    pub lost_alpha: Scalar,
}

/// What is measured of a fill.
#[derive(Clone, Debug)]
pub struct FillFacts {
    pub emitted: Rgba,
    pub source_chroma: Scalar,
    pub scenes: Vec<SceneFacts>,
    pub readability: Vec<ReadabilityFacts>,
    pub totals: FillTotals,
}

/// The limits of a fill, with the measurement tolerance already applied.
#[derive(Clone, Debug)]
pub struct FillLimits {
    pub minimum_contrast: Scalar,
    pub maximum_contrast: Option<Scalar>,
    pub minimum_distance: Scalar,
    pub maximum_distance: Option<Scalar>,
    pub reference_distances: Vec<Scalar>,
    pub runtime_distance: Scalar,
    pub runtime_reference_distances: Vec<Scalar>,
    /// Whether a contrast or distance is preferred.
    pub has_preference: bool,
    pub prefer_source_fidelity: bool,
}

pub open spec fn all_met(flags: Seq<bool>) -> bool {
    forall|i: int| 0 <= i < flags.len() ==> #[trigger] flags[i]
}

fn every(flags: &Vec<bool>) -> (all: bool)
    ensures
        all == all_met(flags@),
{
    let mut index: usize = 0;
    while index < flags.len()
        invariant
            index <= flags@.len(),
            forall|i: int| 0 <= i < index ==> #[trigger] flags@[i],
        decreases flags@.len() - index,
    {
        if !flags[index] {
            assert(!flags@[index as int]);
            return false;
        }
        index += 1;
    }
    true
}

/// Whether no value is below the floor at its place.
pub open spec fn keeps_floors(values: Seq<Scalar>, floors: Seq<Scalar>) -> bool {
    forall|i: int|
        0 <= i < values.len() && i < floors.len() ==> !(#[trigger] values[i]).less(floors[i])
}

fn reaches(values: &Vec<Scalar>, floors: &Vec<Scalar>) -> (kept: bool)
    ensures
        kept == keeps_floors(values@, floors@),
{
    let mut index: usize = 0;
    while index < values.len() && index < floors.len()
        invariant
            index <= values@.len(),
            index <= floors@.len(),
            forall|i: int| 0 <= i < index ==> !(#[trigger] values@[i]).less(floors@[i]),
        decreases values@.len() - index,
    {
        if values[index].is_below(floors[index]) {
            assert(values@[index as int].less(floors@[index as int]));
            return false;
        }
        index += 1;
    }
    true
}

impl FillLimits {
    pub open spec fn admits_runtime(&self, facts: RuntimeFacts) -> bool {
        &&& facts.target_met
        &&& all_met(facts.references_met@)
        &&& all_met(facts.background_steps_met@)
        &&& all_met(facts.foregrounds_met@)
        &&& !facts.adjusted_ratio.less(self.minimum_contrast)
        &&& !facts.distance.less(self.runtime_distance)
        &&& keeps_floors(facts.reference_distances@, self.runtime_reference_distances@)
    }

    pub open spec fn admits_scene(&self, facts: SceneFacts) -> bool {
        &&& facts.contrast_met
        &&& all_met(facts.references_met@)
        &&& all_met(facts.foregrounds_met@)
        &&& self.maximum_contrast matches Some(maximum) ==> !maximum.less(facts.ratio)
        &&& !facts.ratio.less(self.minimum_contrast)
        &&& !facts.distance.less(self.minimum_distance)
        &&& self.maximum_distance matches Some(maximum) ==> !maximum.less(facts.distance)
        &&& keeps_floors(facts.reference_distances@, self.reference_distances@)
        &&& facts.runtime matches Some(runtime) ==> self.admits_runtime(runtime)
    }

    pub open spec fn admits_readability(&self, facts: ReadabilityFacts) -> bool {
        all_met(facts.foregrounds_met@) && all_met(facts.runtime_foregrounds_met@)
    }

    /// Whether the fill is feasible on every background.
    pub open spec fn admits(&self, facts: FillFacts) -> bool {
        &&& forall|i: int|
            0 <= i < facts.scenes@.len() ==> self.admits_scene(#[trigger] facts.scenes@[i])
        &&& forall|i: int|
            0 <= i < facts.readability@.len() ==> self.admits_readability(
                #[trigger] facts.readability@[i],
            )
    }

    pub open spec fn presentation(&self, totals: FillTotals) -> Scalar {
        if self.has_preference {
            totals.preference_distance
        } else {
            totals.final_distance
        }
    }

    /// The rank of a feasible fill.
    pub open spec fn feasible_rank(&self, totals: FillTotals) -> Seq<Scalar> {
        let presentation = self.presentation(totals);
        if self.prefer_source_fidelity {
            seq![
                Scalar { bits: 0 },
                Scalar { bits: 0 },
                totals.distance,
                totals.overshoot,
                presentation,
                totals.lost_retention,
                totals.lost_alpha,
            ]
        } else {
            seq![
                Scalar { bits: 0 },
                Scalar { bits: 0 },
                presentation,
                totals.overshoot,
                totals.distance,
                totals.lost_retention,
                totals.lost_alpha,
            ]
        }
    }

    /// The rank of a fill by what it misses.
    pub open spec fn effort_rank(&self, totals: FillTotals) -> Seq<Scalar> {
        let presentation = self.presentation(totals);
        if self.prefer_source_fidelity {
            seq![
                totals.hard_deficit,
                totals.ceiling_excess,
                totals.distance,
                presentation,
                totals.overshoot,
                totals.lost_retention,
                totals.lost_alpha,
            ]
        } else {
            seq![
                totals.hard_deficit,
                totals.ceiling_excess,
                presentation,
                totals.overshoot,
                totals.distance,
                totals.lost_retention,
                totals.lost_alpha,
            ]
        }
    }

    /// Whether `candidate` is the fill with its rank, or nothing where it is not
    /// feasible.
    pub open spec fn is_evaluation(
        &self,
        facts: FillFacts,
        candidate: Option<FillCandidate>,
    ) -> bool {
        &&& candidate is Some <==> self.admits(facts)
        &&& candidate matches Some(fill) ==> {
            &&& fill.emitted == facts.emitted
            &&& fill.source_chroma == facts.source_chroma
            &&& fill.rank@ == self.feasible_rank(facts.totals)
        }
    }

    /// Whether `fill` is the fill ranked by what it misses.
    pub open spec fn is_effort(&self, facts: FillFacts, fill: FillCandidate) -> bool {
        &&& fill.emitted == facts.emitted
        &&& fill.source_chroma == facts.source_chroma
        &&& fill.rank@ == self.effort_rank(facts.totals)
    }

    fn scene_passes(&self, facts: &SceneFacts) -> (passes: bool)
        ensures
            passes == self.admits_scene(*facts),
    {
        if !facts.contrast_met || !every(&facts.references_met) || !every(&facts.foregrounds_met) {
            return false;
        }
        if let Some(maximum) = self.maximum_contrast {
            if maximum.is_below(facts.ratio) {
                return false;
            }
        }
        if facts.ratio.is_below(self.minimum_contrast) || facts.distance.is_below(
            self.minimum_distance,
        ) {
            return false;
        }
        if let Some(maximum) = self.maximum_distance {
            if maximum.is_below(facts.distance) {
                return false;
            }
        }
        if !reaches(&facts.reference_distances, &self.reference_distances) {
            return false;
        }
        match &facts.runtime {
            None => true,
            Some(runtime) => runtime.target_met && every(&runtime.references_met) && every(
                &runtime.background_steps_met,
            ) && every(&runtime.foregrounds_met) && !runtime.adjusted_ratio.is_below(
                self.minimum_contrast,
            ) && !runtime.distance.is_below(self.runtime_distance) && reaches(
                &runtime.reference_distances,
                &self.runtime_reference_distances,
            ),
        }
    }

    /// The fill with its rank, if it is feasible on every background.
    pub fn evaluate_alpha(&self, facts: &FillFacts) -> (candidate: Option<FillCandidate>)
        ensures
            self.is_evaluation(*facts, candidate),
            candidate is Some <==> self.admits(*facts),
            candidate matches Some(fill) ==> {
                &&& fill.emitted == facts.emitted
                &&& fill.source_chroma == facts.source_chroma
                &&& fill.rank@ == self.feasible_rank(facts.totals)
            },
    {
        let mut scene: usize = 0;
        while scene < facts.scenes.len()
            invariant
                scene <= facts.scenes@.len(),
                forall|i: int| 0 <= i < scene ==> self.admits_scene(#[trigger] facts.scenes@[i]),
            decreases facts.scenes@.len() - scene,
        {
            if !self.scene_passes(&facts.scenes[scene]) {
                assert(!self.admits_scene(facts.scenes@[scene as int]));
                return None;
            }
            scene += 1;
        }
        let mut index: usize = 0;
        while index < facts.readability.len()
            invariant
                index <= facts.readability@.len(),
                forall|i: int|
                    0 <= i < facts.scenes@.len() ==> self.admits_scene(#[trigger] facts.scenes@[i]),
                forall|i: int|
                    0 <= i < index ==> self.admits_readability(#[trigger] facts.readability@[i]),
            decreases facts.readability@.len() - index,
        {
            let readability = &facts.readability[index];
            if !every(&readability.foregrounds_met) || !every(
                &readability.runtime_foregrounds_met,
            ) {
                assert(!self.admits_readability(facts.readability@[index as int]));
                return None;
            }
            index += 1;
        }
        let totals = facts.totals;
        let presentation = if self.has_preference {
            totals.preference_distance
        } else {
            totals.final_distance
        };
        let none = Scalar { bits: 0 };
        let rank = if self.prefer_source_fidelity {
            vec![
                none,
                none,
                totals.distance,
                totals.overshoot,
                presentation,
                totals.lost_retention,
                totals.lost_alpha,
            ]
        } else {
            vec![
                none,
                none,
                presentation,
                totals.overshoot,
                totals.distance,
                totals.lost_retention,
                totals.lost_alpha,
            ]
        };
        assert(rank@ =~= self.feasible_rank(totals));
        Some(FillCandidate { emitted: facts.emitted, rank, source_chroma: facts.source_chroma })
    }

    /// The fill ranked by what it misses.
    pub fn evaluate_alpha_best_effort(&self, facts: &FillFacts) -> (fill: FillCandidate)
        ensures
            self.is_effort(*facts, fill),
            fill.emitted == facts.emitted,
            fill.source_chroma == facts.source_chroma,
            fill.rank@ == self.effort_rank(facts.totals),
    {
        let totals = facts.totals;
        let presentation = if self.has_preference {
            totals.preference_distance
        } else {
            totals.final_distance
        };
        let rank = if self.prefer_source_fidelity {
            vec![
                totals.hard_deficit,
                totals.ceiling_excess,
                totals.distance,
                presentation,
                totals.overshoot,
                totals.lost_retention,
                totals.lost_alpha,
            ]
        } else {
            vec![
                totals.hard_deficit,
                totals.ceiling_excess,
                presentation,
                totals.overshoot,
                totals.distance,
                totals.lost_retention,
                totals.lost_alpha,
            ]
        };
        assert(rank@ =~= self.effort_rank(totals));
        FillCandidate { emitted: facts.emitted, rank, source_chroma: facts.source_chroma }
    }
}

/// The color and alpha as one number.
pub open spec fn packed_fill(color: Rgba) -> int {
    color.rgb().packed() * 256 + color.a
}

fn pack_fill(color: Rgba) -> (value: i64)
    ensures
        value == packed_fill(color),
{
    color.rgb24().pack() as i64 * 256 + color.a as i64
}

/// The colors named by `pool`, as single keys.
pub open spec fn pool_keys(candidates: Seq<FillCandidate>, pool: Seq<usize>) -> Seq<Seq<i64>> {
    pool.map_values(|at: usize| seq![packed_fill(candidates[at as int].emitted) as i64])
}

/// Whether `kept` lists each color of the pool once, ascending, by its first
/// occurrence.
pub open spec fn lists_distinct(
    candidates: Seq<FillCandidate>,
    pool: Seq<usize>,
    kept: Seq<usize>,
) -> bool {
    &&& forall|i: int, j: int|
        0 <= i < j < kept.len() ==> packed_fill(candidates[(#[trigger] kept[i]) as int].emitted)
            < packed_fill(candidates[(#[trigger] kept[j]) as int].emitted)
    &&& forall|i: int| 0 <= i < kept.len() ==> occurs_first(candidates, pool, #[trigger] kept[i])
    &&& forall|p: int|
        0 <= p < pool.len() ==> has_color(
            candidates,
            kept,
            candidates[(#[trigger] pool[p]) as int].emitted,
        )
}

/// Whether a listed fill has the color.
pub open spec fn has_color(candidates: Seq<FillCandidate>, kept: Seq<usize>, color: Rgba) -> bool {
    exists|i: int| 0 <= i < kept.len() && candidates[(#[trigger] kept[i]) as int].emitted == color
}

/// Whether the pool names the fill at a place before which its color does not occur.
pub open spec fn occurs_first(candidates: Seq<FillCandidate>, pool: Seq<usize>, at: usize) -> bool {
    exists|p: int| #[trigger] is_first_occurrence(candidates, pool, p) && pool[p] == at
}

/// Whether the color at a place of the pool does not occur before it.
pub open spec fn is_first_occurrence(
    candidates: Seq<FillCandidate>,
    pool: Seq<usize>,
    place: int,
) -> bool {
    &&& 0 <= place < pool.len()
    &&& forall|p: int|
        0 <= p < place ==> candidates[(#[trigger] pool[p]) as int].emitted
            != candidates[pool[place] as int].emitted
}

proof fn lemma_packed_fill(left: Rgba, right: Rgba)
    ensures
        packed_fill(left) == packed_fill(right) <==> left == right,
{
    assert(left.rgb().packed() == right.rgb().packed() ==> left.rgb() == right.rgb());
}

proof fn lemma_single(left: i64, right: i64)
    ensures
        key_before(seq![left], seq![right]) == (left < right),
        seq![left] == seq![right] <==> left == right,
{
    reveal_with_fuel(key_before, 2);
    assert(seq![left][0] == left && seq![right][0] == right);
    assert(seq![left].drop_first() =~= Seq::<i64>::empty());
    assert(seq![right].drop_first() =~= Seq::<i64>::empty());
}

/// Sorts the pool by color and keeps each color once.
fn distinct_fills(candidates: &Vec<FillCandidate>, pool: &Vec<usize>) -> (kept: Vec<usize>)
    requires
        forall|p: int| 0 <= p < pool@.len() ==> (#[trigger] pool@[p]) < candidates@.len(),
    ensures
        lists_distinct(candidates@, pool@, kept@),
        forall|i: int| 0 <= i < kept@.len() ==> (#[trigger] kept@[i]) < candidates@.len(),
{
    let mut keys: Vec<Vec<i64>> = Vec::new();
    let mut index: usize = 0;
    let ghost wanted = pool_keys(candidates@, pool@);
    while index < pool.len()
        invariant
            forall|p: int| 0 <= p < pool@.len() ==> (#[trigger] pool@[p]) < candidates@.len(),
            index <= pool@.len(),
            wanted == pool_keys(candidates@, pool@),
            key_views(keys@) == wanted.take(index as int),
        decreases pool@.len() - index,
    {
        let ghost held = key_views(keys@);
        assert(pool@[index as int] < candidates@.len());
        let mut key: Vec<i64> = Vec::new();
        key.push(pack_fill(candidates[pool[index]].emitted));
        assert(key@ =~= wanted[index as int]);
        keys.push(key);
        assert(key_views(keys@) =~= held.push(key@));
        index += 1;
        assert(key_views(keys@) =~= wanted.take(index as int));
    }
    assert(key_views(keys@) =~= wanted);
    let order = stable_order(&keys);
    let ghost color = |at: int| candidates@[pool@[at] as int].emitted;
    let mut kept: Vec<usize> = Vec::new();
    let ghost mut places: Seq<int> = Seq::empty();
    let mut next: usize = 0;
    assert forall|i: int, j: int| 0 <= i < j < order@.len() implies packed_fill(
        candidates@[pool@[(#[trigger] order@[i]) as int] as int].emitted,
    ) <= packed_fill(candidates@[pool@[(#[trigger] order@[j]) as int] as int].emitted) && (
    packed_fill(candidates@[pool@[order@[i] as int] as int].emitted) == packed_fill(
        candidates@[pool@[order@[j] as int] as int].emitted,
    ) ==> order@[i] < order@[j]) by {
        let left = order@[i] as int;
        let right = order@[j] as int;
        assert(stable_before(wanted, left, right));
        lemma_single(
            packed_fill(candidates@[pool@[left] as int].emitted) as i64,
            packed_fill(candidates@[pool@[right] as int].emitted) as i64,
        );
    }
    while next < order.len()
        invariant
            forall|p: int| 0 <= p < pool@.len() ==> (#[trigger] pool@[p]) < candidates@.len(),
            wanted.len() == pool@.len(),
            is_stable_order(wanted, order@),
            next <= order@.len(),
            places.len() == kept@.len(),
            forall|i: int, j: int|
                0 <= i < j < order@.len() ==> packed_fill(
                    candidates@[pool@[(#[trigger] order@[i]) as int] as int].emitted,
                ) <= packed_fill(
                    candidates@[pool@[(#[trigger] order@[j]) as int] as int].emitted,
                ) && (packed_fill(candidates@[pool@[order@[i] as int] as int].emitted)
                    == packed_fill(candidates@[pool@[order@[j] as int] as int].emitted)
                    ==> order@[i] < order@[j]),
            forall|i: int|
                0 <= i < kept@.len() ==> {
                    let at = #[trigger] places[i];
                    &&& 0 <= at < next
                    &&& kept@[i] == pool@[order@[at] as int]
                    &&& forall|k: int|
                        0 <= k < at ==> packed_fill(
                            candidates@[pool@[(#[trigger] order@[k]) as int] as int].emitted,
                        ) < packed_fill(candidates@[pool@[order@[at] as int] as int].emitted)
                },
            forall|i: int, j: int|
                0 <= i < j < places.len() ==> #[trigger] places[i] < #[trigger] places[j],
            forall|k: int|
                0 <= k < next ==> has_color(
                    candidates@,
                    kept@,
                    candidates@[pool@[(#[trigger] order@[k]) as int] as int].emitted,
                ),
            next > 0 ==> kept@.len() > 0 && candidates@[kept@.last() as int].emitted
                == candidates@[pool@[order@[next - 1] as int] as int].emitted,
            forall|i: int| 0 <= i < kept@.len() ==> (#[trigger] kept@[i]) < candidates@.len(),
        decreases order@.len() - next,
    {
        let ghost held = kept@;
        let ghost held_places = places;
        let place = order[next];
        assert(order@[next as int] < wanted.len());
        let at = pool[place];
        let fresh = if kept.len() == 0 {
            true
        } else {
            candidates[kept[kept.len() - 1]].emitted != candidates[at].emitted
        };
        if fresh {
            assert forall|k: int| 0 <= k < next implies packed_fill(
                candidates@[pool@[(#[trigger] order@[k]) as int] as int].emitted,
            ) < packed_fill(candidates@[at as int].emitted) by {
                let last = candidates@[pool@[order@[next - 1] as int] as int].emitted;
                lemma_packed_fill(last, candidates@[at as int].emitted);
                assert(order@[next - 1] < wanted.len());
                assert(packed_fill(last) <= packed_fill(
                    candidates@[pool@[order@[next as int] as int] as int].emitted,
                ));
                if k < next - 1 {
                    assert(packed_fill(
                        candidates@[pool@[order@[k] as int] as int].emitted,
                    ) <= packed_fill(last));
                }
            }
            kept.push(at);
            proof {
                places = places.push(next as int);
            }
        }
        assert forall|k: int| 0 <= k < next + 1 implies has_color(
            candidates@,
            kept@,
            candidates@[pool@[(#[trigger] order@[k]) as int] as int].emitted,
        ) by {
            if k < next {
                let i = choose|i: int|
                    0 <= i < held.len() && candidates@[(#[trigger] held[i]) as int].emitted
                        == candidates@[pool@[order@[k] as int] as int].emitted;
                assert(kept@[i] == held[i]);
            } else {
                assert(candidates@[kept@[kept@.len() - 1] as int].emitted
                    == candidates@[at as int].emitted);
            }
        }
        next += 1;
    }
    proof {
        assert forall|i: int| 0 <= i < kept@.len() implies occurs_first(
            candidates@,
            pool@,
            #[trigger] kept@[i],
        ) by {
            let at = places[i];
            let p = order@[at] as int;
            assert(order@[at] < wanted.len());
            assert forall|q: int| 0 <= q < p implies candidates@[(#[trigger] pool@[q]) as int].emitted
                != candidates@[pool@[p] as int].emitted by {
                crate::order::lemma_stable_order_covers(wanted, order@, q);
                let k = choose|k: int| 0 <= k < order@.len() && #[trigger] order@[k] == q;
                if k < at {
                    assert(packed_fill(candidates@[pool@[order@[k] as int] as int].emitted)
                        < packed_fill(candidates@[pool@[order@[at] as int] as int].emitted));
                } else if k > at {
                    if candidates@[pool@[q] as int].emitted == candidates@[pool@[p] as int].emitted {
                        assert(order@[at] < order@[k]);
                    }
                }
            }
            assert(is_first_occurrence(candidates@, pool@, p));
        }
        assert forall|p: int| 0 <= p < pool@.len() implies has_color(
            candidates@,
            kept@,
            candidates@[(#[trigger] pool@[p]) as int].emitted,
        ) by {
            crate::order::lemma_stable_order_covers(wanted, order@, p);
            let k = choose|k: int| 0 <= k < order@.len() && #[trigger] order@[k] == p;
            let i = choose|i: int|
                0 <= i < kept@.len() && candidates@[(#[trigger] kept@[i]) as int].emitted
                    == candidates@[pool@[order@[k] as int] as int].emitted;
            assert(candidates@[kept@[i] as int].emitted == candidates@[pool@[p] as int].emitted);
        }
        assert forall|i: int, j: int| 0 <= i < j < kept@.len() implies packed_fill(
            candidates@[(#[trigger] kept@[i]) as int].emitted,
        ) < packed_fill(candidates@[(#[trigger] kept@[j]) as int].emitted) by {
            let left = places[i];
            let right = places[j];
            assert(left < right);
            assert(packed_fill(candidates@[pool@[order@[left] as int] as int].emitted)
                < packed_fill(candidates@[pool@[order@[right] as int] as int].emitted));
        }
    }
    kept
}

/// Positions `0..count`, at most `limit` of them.
pub open spec fn leading(count: nat, limit: nat) -> Seq<usize> {
    Seq::new(if count <= limit { count } else { limit }, |i: int| i as usize)
}

/// What the most opaque fills are ordered by.
pub open spec fn opacity_key(candidate: FillCandidate) -> Seq<i64> {
    seq![(255 - candidate.emitted.a) as i64] + fill_key(candidate)
}

/// What the most salient fills are ordered by: the smallest deficit, then the
/// largest excess, chroma and alpha, then the hex text.
pub open spec fn salience_key(candidate: FillCandidate) -> Seq<i64> {
    seq![
        candidate.rank@[0].place() as i64,
        (-1 - candidate.rank@[1].place()) as i64,
        (-1 - candidate.source_chroma.place()) as i64,
        (255 - candidate.emitted.a) as i64,
        candidate.emitted.rgb().packed() as i64,
        hex_alpha(candidate.emitted.a) as i64,
    ]
}

/// Whether `kept` is a frontier: each color once among the first `ranked` fills
/// and the first `other` fills of the order of `keys`.
pub open spec fn is_frontier(
    candidates: Seq<FillCandidate>,
    keys: Seq<Seq<i64>>,
    ranked: nat,
    other: nat,
    kept: Seq<usize>,
) -> bool {
    exists|order: Seq<usize>|
        {
            &&& #[trigger] is_stable_order(keys, order)
            &&& lists_distinct(
                candidates,
                leading(candidates.len(), ranked) + order.take(
                    if order.len() <= other { order.len() as int } else { other as int },
                ),
                kept,
            )
        }
}

fn frontier(
    candidates: &Vec<FillCandidate>,
    keys: &Vec<Vec<i64>>,
    ranked: usize,
    other: usize,
) -> (kept: Vec<
    usize,
>)
    requires
        keys@.len() == candidates@.len(),
    ensures
        is_frontier(candidates@, key_views(keys@), ranked as nat, other as nat, kept@),
        forall|i: int| 0 <= i < kept@.len() ==> (#[trigger] kept@[i]) < candidates@.len(),
{
    let mut pool: Vec<usize> = Vec::new();
    let mut index: usize = 0;
    while index < candidates.len() && index < ranked
        invariant
            index <= candidates@.len(),
            index <= ranked,
            pool@ == leading(candidates@.len(), index as nat),
        decreases ranked - index,
    {
        pool.push(index);
        index += 1;
        assert(pool@ =~= leading(candidates@.len(), index as nat));
    }
    assert(pool@ =~= leading(candidates@.len(), ranked as nat));
    let ghost first = pool@;
    let order = stable_order(keys);
    let mut next: usize = 0;
    assert(first + order@.take(0) =~= pool@);
    while next < order.len() && next < other
        invariant
            keys@.len() == candidates@.len(),
            is_stable_order(key_views(keys@), order@),
            next <= order@.len(),
            next <= other,
            pool@ == first + order@.take(next as int),
        decreases other - next,
    {
        pool.push(order[next]);
        next += 1;
        assert(pool@ =~= first + order@.take(next as int));
    }
    assert forall|p: int| 0 <= p < pool@.len() implies (#[trigger] pool@[p]) < candidates@.len() by {
        if p >= first.len() {
            assert(pool@[p] == order@[p - first.len()]);
            assert(order@[p - first.len()] < key_views(keys@).len());
        }
    }
    assert(is_stable_order(key_views(keys@), order@));
    distinct_fills(candidates, &pool)
}

/// The keys of all fills by opacity.
pub open spec fn opacity_keys(candidates: Seq<FillCandidate>) -> Seq<Seq<i64>> {
    candidates.map_values(|candidate: FillCandidate| opacity_key(candidate))
}

/// The keys of all fills by salience.
pub open spec fn salience_keys(candidates: Seq<FillCandidate>) -> Seq<Seq<i64>> {
    candidates.map_values(|candidate: FillCandidate| salience_key(candidate))
}

/// The fills worth pairing: the first half of the limit by rank, the other half by
/// opacity.
pub fn overlay_frontier(candidates: &Vec<FillCandidate>, limit: usize) -> (kept: Vec<usize>)
    ensures
        is_frontier(
            candidates@,
            opacity_keys(candidates@),
            (limit / 2) as nat,
            (limit / 2) as nat,
            kept@,
        ),
        forall|i: int| 0 <= i < kept@.len() ==> (#[trigger] kept@[i]) < candidates@.len(),
{
    let mut keys: Vec<Vec<i64>> = Vec::new();
    let mut index: usize = 0;
    let ghost wanted = opacity_keys(candidates@);
    while index < candidates.len()
        invariant
            index <= candidates@.len(),
            wanted == opacity_keys(candidates@),
            key_views(keys@) == wanted.take(index as int),
        decreases candidates@.len() - index,
    {
        let ghost held = key_views(keys@);
        let mut key: Vec<i64> = Vec::new();
        key.push(255 - candidates[index].emitted.a as i64);
        let mut rest = key_of_fill(&candidates[index]);
        key.append(&mut rest);
        assert(key@ =~= wanted[index as int]);
        keys.push(key);
        assert(key_views(keys@) =~= held.push(key@));
        index += 1;
        assert(key_views(keys@) =~= wanted.take(index as int));
    }
    assert(key_views(keys@) =~= wanted);
    frontier(candidates, &keys, limit / 2, limit / 2)
}

/// The fills worth pairing when no pair is feasible: the first half of the limit
/// by rank, the rest by salience.
pub fn overlay_fallback_frontier(
    candidates: &Vec<FillCandidate>,
    limit: usize,
) -> (kept: Vec<usize>)
    requires
        forall|i: int| 0 <= i < candidates@.len() ==> (#[trigger] candidates@[i]).rank@.len() >= 2,
    ensures
        is_frontier(
            candidates@,
            salience_keys(candidates@),
            (limit / 2) as nat,
            (limit - limit / 2) as nat,
            kept@,
        ),
        forall|i: int| 0 <= i < kept@.len() ==> (#[trigger] kept@[i]) < candidates@.len(),
{
    let mut keys: Vec<Vec<i64>> = Vec::new();
    let mut index: usize = 0;
    let ghost wanted = salience_keys(candidates@);
    while index < candidates.len()
        invariant
            forall|i: int|
                0 <= i < candidates@.len() ==> (#[trigger] candidates@[i]).rank@.len() >= 2,
            index <= candidates@.len(),
            wanted == salience_keys(candidates@),
            key_views(keys@) == wanted.take(index as int),
        decreases candidates@.len() - index,
    {
        let ghost held = key_views(keys@);
        let candidate = &candidates[index];
        let mut key: Vec<i64> = Vec::new();
        key.push(candidate.rank[0].key());
        key.push(-1 - candidate.rank[1].key());
        key.push(-1 - candidate.source_chroma.key());
        key.push(255 - candidate.emitted.a as i64);
        key.push(candidate.emitted.rgb24().pack() as i64);
        key.push(alpha_place(candidate.emitted.a));
        assert(key@ =~= wanted[index as int]);
        keys.push(key);
        assert(key_views(keys@) =~= held.push(key@));
        index += 1;
        assert(key_views(keys@) =~= wanted.take(index as int));
    }
    assert(key_views(keys@) =~= wanted);
    frontier(candidates, &keys, limit / 2, limit - limit / 2)
}

/// The keys of all fills by rank.
pub open spec fn ranked_keys(candidates: Seq<FillCandidate>) -> Seq<Seq<i64>> {
    candidates.map_values(|candidate: FillCandidate| fill_key(candidate))
}

/// Whether `kept` lists fills by rank and hex text, leaving out a fill that has the
/// color of the one before it.
pub open spec fn is_ranked_list(candidates: Seq<FillCandidate>, kept: Seq<usize>) -> bool {
    exists|order: Seq<usize>|
        {
            &&& #[trigger] is_stable_order(ranked_keys(candidates), order)
            &&& kept == without_repeats(candidates, order)
        }
}

/// The order without each fill that has the color of the fill kept before it.
pub open spec fn without_repeats(candidates: Seq<FillCandidate>, order: Seq<usize>) -> Seq<usize>
    decreases order.len(),
{
    if order.len() == 0 {
        Seq::empty()
    } else {
        let earlier = without_repeats(candidates, order.drop_last());
        if earlier.len() > 0 && candidates[earlier.last() as int].emitted
            == candidates[order.last() as int].emitted {
            earlier
        } else {
            earlier.push(order.last())
        }
    }
}

/// Orders fills by rank and hex text and leaves out repeats.
pub fn ranked_fills(candidates: &Vec<FillCandidate>) -> (kept: Vec<usize>)
    ensures
        is_ranked_list(candidates@, kept@),
        forall|i: int| 0 <= i < kept@.len() ==> (#[trigger] kept@[i]) < candidates@.len(),
{
    let mut keys: Vec<Vec<i64>> = Vec::new();
    let mut index: usize = 0;
    let ghost wanted = ranked_keys(candidates@);
    while index < candidates.len()
        invariant
            index <= candidates@.len(),
            wanted == ranked_keys(candidates@),
            key_views(keys@) == wanted.take(index as int),
        decreases candidates@.len() - index,
    {
        let ghost held = key_views(keys@);
        let key = key_of_fill(&candidates[index]);
        keys.push(key);
        assert(key_views(keys@) =~= held.push(key@));
        index += 1;
        assert(key_views(keys@) =~= wanted.take(index as int));
    }
    assert(key_views(keys@) =~= wanted);
    let order = stable_order(&keys);
    let mut kept: Vec<usize> = Vec::new();
    let mut next: usize = 0;
    while next < order.len()
        invariant
            wanted.len() == candidates@.len(),
            is_stable_order(wanted, order@),
            next <= order@.len(),
            kept@ == without_repeats(candidates@, order@.take(next as int)),
            forall|i: int| 0 <= i < kept@.len() ==> (#[trigger] kept@[i]) < candidates@.len(),
        decreases order@.len() - next,
    {
        assert(order@.take(next as int + 1).drop_last() =~= order@.take(next as int));
        assert(order@[next as int] < wanted.len());
        let position = order[next];
        let repeats = kept.len() > 0 && candidates[kept[kept.len() - 1]].emitted
            == candidates[position].emitted;
        if !repeats {
            kept.push(position);
        }
        next += 1;
    }
    assert(order@.take(next as int) =~= order@);
    assert(is_stable_order(ranked_keys(candidates@), order@));
    kept
}

/// The key that a vector holds, if there is one.
pub open spec fn optional_key(key: Option<Vec<i64>>) -> Option<Seq<i64>> {
    match key {
        Some(key) => Some(key@),
        None => None,
    }
}

/// Whether two positions have a key, and always the stated one.
pub open spec fn is_keyed<F: Fn(usize, usize) -> Option<Vec<i64>>>(
    key: &F,
    keys: spec_fn(int, int) -> Option<Seq<i64>>,
    left: usize,
    right: usize,
) -> bool {
    &&& call_requires(*key, (left, right))
    &&& forall|value: Option<Vec<i64>>|
        #[trigger] call_ensures(*key, (left, right), value) ==> optional_key(value) == keys(
            left as int,
            right as int,
        )
}

fn least_pair<F: Fn(usize, usize) -> Option<Vec<i64>>>(
    rows: usize,
    columns: usize,
    key: &F,
    Ghost(keys): Ghost<spec_fn(int, int) -> Option<Seq<i64>>>,
) -> (found: Option<(usize, usize)>)
    requires
        forall|l: usize, r: usize|
            l < rows && r < columns ==> #[trigger] is_keyed(key, keys, l, r),
    ensures
        found is None <==> forall|l: int, r: int|
            0 <= l < rows && 0 <= r < columns ==> (#[trigger] keys(l, r)) is None,
        found matches Some((left, right)) ==> is_least_pair(
            keys,
            rows as nat,
            columns as nat,
            left as int,
            right as int,
        ),
{
    let mut found: Option<(usize, usize)> = None;
    let mut found_key: Vec<i64> = Vec::new();
    let mut left: usize = 0;
    while left < rows
        invariant
            forall|l: usize, r: usize|
                l < rows && r < columns ==> #[trigger] is_keyed(key, keys, l, r),
            left <= rows,
            found is None ==> forall|l: int, r: int|
                0 <= l < left && 0 <= r < columns ==> (#[trigger] keys(l, r)) is None,
            found matches Some(best) ==> {
                &&& best.0 < left
                &&& best.1 < columns
                &&& keys(best.0 as int, best.1 as int) == Some(found_key@)
                &&& forall|l: int, r: int|
                    0 <= l < left && 0 <= r < columns && (#[trigger] keys(l, r)) is Some ==> {
                        &&& !key_before(keys(l, r)->0, found_key@)
                        &&& l < best.0 || (l == best.0 && r < best.1) ==> key_before(
                            found_key@,
                            keys(l, r)->0,
                        )
                    }
            },
        decreases rows - left,
    {
        let mut right: usize = 0;
        while right < columns
            invariant
                forall|l: usize, r: usize|
                    l < rows && r < columns ==> #[trigger] is_keyed(key, keys, l, r),
                left < rows,
                right <= columns,
                found is None ==> forall|l: int, r: int|
                    0 <= r < columns && (0 <= l < left || (l == left && r < right)) ==> (
                    #[trigger] keys(l, r)) is None,
                found matches Some(best) ==> {
                    &&& best.0 < left || (best.0 == left && best.1 < right)
                    &&& best.1 < columns
                    &&& keys(best.0 as int, best.1 as int) == Some(found_key@)
                    &&& forall|l: int, r: int|
                        0 <= r < columns && (0 <= l < left || (l == left && r < right)) && (
                        #[trigger] keys(l, r)) is Some ==> {
                            &&& !key_before(keys(l, r)->0, found_key@)
                            &&& l < best.0 || (l == best.0 && r < best.1) ==> key_before(
                                found_key@,
                                keys(l, r)->0,
                            )
                        }
                },
            decreases columns - right,
        {
            assert(is_keyed(key, keys, left, right));
            let value = key(left, right);
            assert(optional_key(value) == keys(left as int, right as int));
            if let Some(candidate) = value {
                let replace = match found {
                    None => true,
                    Some(_) => before(&candidate, &found_key),
                };
                proof {
                    lemma_key_total(candidate@, candidate@);
                    if found is Some {
                        lemma_key_total(candidate@, found_key@);
                    }
                    if replace && found is Some {
                        assert forall|l: int, r: int|
                            0 <= r < columns && (0 <= l < left || (l == left && r < right)) && (
                            #[trigger] keys(l, r)) is Some implies !key_before(
                            keys(l, r)->0,
                            candidate@,
                        ) && key_before(candidate@, keys(l, r)->0) by {
                            let other = keys(l, r)->0;
                            lemma_key_total(other, found_key@);
                            if other != found_key@ {
                                lemma_key_transitive(candidate@, found_key@, other);
                            }
                            lemma_key_total(candidate@, other);
                        }
                    }
                }
                if replace {
                    found = Some((left, right));
                    found_key = candidate;
                }
            }
            right += 1;
        }
        left += 1;
    }
    found
}

/// What a pair of fills is ordered by: the rank, then both colors.
pub open spec fn fill_pair_key(rank: Seq<Scalar>, left: Rgba, right: Rgba) -> Seq<i64> {
    rank_key(rank).push(packed_fill(left) as i64).push(packed_fill(right) as i64)
}

/// Whether a fill misses nothing beyond the slack.
pub open spec fn misses_nothing(candidate: FillCandidate, slack: Scalar) -> bool {
    &&& candidate.rank@.len() >= 2
    &&& candidate.rank@[0].at_most(slack)
    &&& candidate.rank@[1].at_most(slack)
}

fn is_feasible_fill(candidate: &FillCandidate, slack: Scalar) -> (feasible: bool)
    ensures
        feasible == misses_nothing(*candidate, slack),
{
    candidate.rank.len() >= 2 && candidate.rank[0].is_at_most(slack)
        && candidate.rank[1].is_at_most(slack)
}

/// Whether a fill carries enough chroma.
pub open spec fn is_chromatic(candidate: FillCandidate, chroma_floor: Scalar) -> bool {
    !candidate.source_chroma.less(chroma_floor)
}

/// What the fills of a frontier are ordered by: the part of the rank that pairing adds up,
/// then the hex text.
pub open spec fn frontier_key(candidate: FillCandidate, slack: Scalar) -> Seq<i64> {
    rank_key(prefix_of(candidate.rank@, slack)).push(
        candidate.emitted.rgb().packed() as i64,
    ).push(hex_alpha(candidate.emitted.a) as i64)
}

/// The fills that miss nothing.
pub open spec fn feasible_part(
    candidates: Seq<FillCandidate>,
    frontier: Seq<usize>,
    slack: Scalar,
) -> Seq<usize> {
    frontier.filter(|at: usize| misses_nothing(candidates[at as int], slack))
}

/// The keys of the fills that `kept` names.
pub open spec fn frontier_keys(
    candidates: Seq<FillCandidate>,
    kept: Seq<usize>,
    slack: Scalar,
) -> Seq<Seq<i64>> {
    kept.map_values(|at: usize| frontier_key(candidates[at as int], slack))
}

/// Whether `listed` are the fills that `kept` names, best first.
pub open spec fn lists_ranked(
    candidates: Seq<FillCandidate>,
    kept: Seq<usize>,
    slack: Scalar,
    listed: Seq<usize>,
) -> bool {
    exists|order: Seq<usize>|
        {
            &&& #[trigger] is_stable_order(frontier_keys(candidates, kept, slack), order)
            &&& listed == order.map_values(|at: usize| kept[at as int])
        }
}

/// Whether `listed` are the fills of a frontier that miss nothing, best first.
pub open spec fn is_ranked_frontier(
    candidates: Seq<FillCandidate>,
    size: nat,
    slack: Scalar,
    listed: Seq<usize>,
) -> bool {
    exists|frontier: Seq<usize>|
        {
            &&& #[trigger] is_frontier(
                candidates,
                opacity_keys(candidates),
                size / 2,
                size / 2,
                frontier,
            )
            &&& lists_ranked(
                candidates,
                feasible_part(candidates, frontier, slack),
                slack,
                listed,
            )
        }
}

fn feasible_fills(candidates: &Vec<FillCandidate>, frontier: &Vec<usize>, slack: Scalar) -> (kept:
    Vec<usize>)
    requires
        forall|i: int| 0 <= i < frontier@.len() ==> (#[trigger] frontier@[i]) < candidates@.len(),
    ensures
        kept@ == feasible_part(candidates@, frontier@, slack),
        forall|i: int| 0 <= i < kept@.len() ==> (#[trigger] kept@[i]) < candidates@.len(),
{
    let ghost wanted = |at: usize| misses_nothing(candidates@[at as int], slack);
    let mut kept: Vec<usize> = Vec::new();
    let mut next: usize = 0;
    assert(frontier@.take(0).filter(wanted) =~= Seq::<usize>::empty()) by {
        assert(frontier@.take(0) =~= Seq::<usize>::empty());
        reveal(Seq::filter);
    }
    while next < frontier.len()
        invariant
            forall|i: int|
                0 <= i < frontier@.len() ==> (#[trigger] frontier@[i]) < candidates@.len(),
            wanted == (|at: usize| misses_nothing(candidates@[at as int], slack)),
            next <= frontier@.len(),
            kept@ == frontier@.take(next as int).filter(wanted),
            forall|i: int| 0 <= i < kept@.len() ==> (#[trigger] kept@[i]) < candidates@.len(),
        decreases frontier@.len() - next,
    {
        let at = frontier[next];
        assert(frontier@.take(next as int + 1).drop_last() =~= frontier@.take(next as int));
        assert(frontier@.take(next as int + 1).last() == at);
        proof {
            reveal(Seq::filter);
        }
        assert(frontier@[next as int] < candidates@.len());
        if is_feasible_fill(&candidates[at], slack) {
            kept.push(at);
        }
        next += 1;
    }
    assert(frontier@.take(next as int) =~= frontier@);
    kept
}

/// The fills of a frontier that miss nothing, best first.
fn ranked_frontier(candidates: &Vec<FillCandidate>, size: usize, slack: Scalar) -> (listed:
    Vec<usize>)
    requires
        forall|i: int| 0 <= i < candidates@.len() ==> (#[trigger] candidates@[i]).rank@.len() >= 5,
    ensures
        is_ranked_frontier(candidates@, size as nat, slack, listed@),
        forall|i: int| 0 <= i < listed@.len() ==> (#[trigger] listed@[i]) < candidates@.len(),
{
    let frontier = overlay_frontier(candidates, size);
    let kept = feasible_fills(candidates, &frontier, slack);
    let ghost wanted = frontier_keys(candidates@, kept@, slack);
    let mut keys: Vec<Vec<i64>> = Vec::new();
    let mut index: usize = 0;
    while index < kept.len()
        invariant
            forall|i: int|
                0 <= i < candidates@.len() ==> (#[trigger] candidates@[i]).rank@.len() >= 5,
            forall|i: int| 0 <= i < kept@.len() ==> (#[trigger] kept@[i]) < candidates@.len(),
            index <= kept@.len(),
            wanted == frontier_keys(candidates@, kept@, slack),
            key_views(keys@) == wanted.take(index as int),
        decreases kept@.len() - index,
    {
        let ghost held = key_views(keys@);
        assert(kept@[index as int] < candidates@.len());
        let candidate = &candidates[kept[index]];
        assert(candidates@[kept@[index as int] as int].rank@.len() >= 5);
        let mut key = rank_places(&rank_prefix(candidate, slack));
        key.push(candidate.emitted.rgb24().pack() as i64);
        key.push(alpha_place(candidate.emitted.a));
        assert(key@ =~= wanted[index as int]);
        keys.push(key);
        assert(key_views(keys@) =~= held.push(key@));
        index += 1;
        assert(key_views(keys@) =~= wanted.take(index as int));
    }
    assert(key_views(keys@) =~= wanted);
    let order = stable_order(&keys);
    let mut listed: Vec<usize> = Vec::new();
    let mut next: usize = 0;
    while next < order.len()
        invariant
            forall|i: int| 0 <= i < kept@.len() ==> (#[trigger] kept@[i]) < candidates@.len(),
            wanted.len() == kept@.len(),
            is_stable_order(wanted, order@),
            next <= order@.len(),
            listed@ == order@.take(next as int).map_values(|at: usize| kept@[at as int]),
            forall|i: int| 0 <= i < listed@.len() ==> (#[trigger] listed@[i]) < candidates@.len(),
        decreases order@.len() - next,
    {
        assert(order@[next as int] < kept@.len());
        listed.push(kept[order[next]]);
        next += 1;
        assert(listed@ =~= order@.take(next as int).map_values(|at: usize| kept@[at as int]));
    }
    assert(order@.take(next as int) =~= order@);
    assert(kept@ == feasible_part(candidates@, frontier@, slack));
    assert(is_stable_order(frontier_keys(candidates@, kept@, slack), order@));
    assert(lists_ranked(candidates@, kept@, slack, listed@));
    listed
}

/// Which of the fills carry enough chroma.
fn chromatic_flags(candidates: &Vec<FillCandidate>, listed: &Vec<usize>, chroma_floor: Scalar) -> (
flags: Vec<bool>)
    requires
        forall|i: int| 0 <= i < listed@.len() ==> (#[trigger] listed@[i]) < candidates@.len(),
    ensures
        flags@.len() == listed@.len(),
        forall|i: int|
            0 <= i < listed@.len() ==> #[trigger] flags@[i] == is_chromatic(
                candidates@[listed@[i] as int],
                chroma_floor,
            ),
{
    let mut flags: Vec<bool> = Vec::new();
    let mut index: usize = 0;
    while index < listed.len()
        invariant
            forall|i: int| 0 <= i < listed@.len() ==> (#[trigger] listed@[i]) < candidates@.len(),
            index <= listed@.len(),
            flags@.len() == index,
            forall|i: int|
                0 <= i < index ==> #[trigger] flags@[i] == is_chromatic(
                    candidates@[listed@[i] as int],
                    chroma_floor,
                ),
        decreases listed@.len() - index,
    {
        assert(listed@[index as int] < candidates@.len());
        flags.push(!candidates[listed[index]].source_chroma.is_below(chroma_floor));
        index += 1;
    }
    flags
}

/// The part of a pair's rank that both fills add up to by themselves.
pub open spec fn pair_head(rank: Seq<Scalar>) -> Seq<i64> {
    rank_key(
        if rank.len() <= 3 {
            rank
        } else {
            rank.take(3)
        },
    )
}

fn pair_head_of(rank: &Vec<Scalar>) -> (head: Vec<i64>)
    ensures
        head@ == pair_head(rank@),
{
    let ghost wanted = if rank@.len() <= 3 {
        rank@
    } else {
        rank@.take(3)
    };
    let mut head: Vec<i64> = Vec::new();
    let mut index: usize = 0;
    while index < rank.len() && index < 3
        invariant
            wanted == (if rank@.len() <= 3 {
                rank@
            } else {
                rank@.take(3)
            }),
            index <= wanted.len(),
            head@ == rank_key(wanted.take(index as int)),
        decreases 3 - index,
    {
        head.push(rank[index].key());
        index += 1;
        assert(head@ =~= rank_key(wanted.take(index as int)));
    }
    assert(wanted.take(index as int) =~= wanted);
    head
}

/// The key of two fills of the frontiers, if the pair is feasible.
pub open spec fn feasible_pair_key<F: Fn(usize, usize) -> PairFacts>(
    pair: &OverlayPair,
    measure: &F,
    firsts: Seq<usize>,
    seconds: Seq<usize>,
    left: int,
    right: int,
) -> Option<Seq<i64>> {
    let first = pair.first@[firsts[left] as int];
    let second = pair.second@[seconds[right] as int];
    let facts = measured(measure, firsts[left], seconds[right]);
    if is_chromatic(first, pair.chroma_floor) && is_chromatic(second, pair.chroma_floor)
        && pair.limits.met(facts.separation) {
        Some(fill_pair_key(facts.rank@, first.emitted, second.emitted))
    } else {
        None
    }
}

/// The key of two fills of the frontiers by what the pair misses.
pub open spec fn effort_pair_key<F: Fn(usize, usize) -> PairFacts>(
    pair: &OverlayPair,
    measure: &F,
    firsts: Seq<usize>,
    seconds: Seq<usize>,
    left: int,
    right: int,
) -> Option<Seq<i64>> {
    Some(
        fill_pair_key(
            measured(measure, firsts[left], seconds[right]).effort@,
            pair.first@[firsts[left] as int].emitted,
            pair.second@[seconds[right] as int].emitted,
        ),
    )
}

/// Two lists of ranked fills that are to be paired.
pub struct OverlayPair {
    pub first: Vec<FillCandidate>,
    pub second: Vec<FillCandidate>,
    pub limits: PairLimits,
    /// What a fill may miss and still count as feasible.
    pub slack: Scalar,
    pub chroma_floor: Scalar,
    /// Whether fills that stand out alike are preferred.
    pub balance_salience: bool,
}

/// The pairs of two frontiers as they are scanned. Unless fills are balanced, the scan
/// breaks off where what the fills add up to by themselves comes behind the best pair.
pub open spec fn pair_grid<F: Fn(usize, usize) -> PairFacts>(
    pair: &OverlayPair,
    measure: &F,
    firsts: Seq<usize>,
    seconds: Seq<usize>,
) -> Grid {
    Grid {
        rows: firsts.len(),
        columns: seconds.len(),
        row_open: |l: int| is_chromatic(pair.first@[firsts[l] as int], pair.chroma_floor),
        column_open: |r: int| is_chromatic(pair.second@[seconds[r] as int], pair.chroma_floor),
        head: |l: int, r: int| pair_head(measured(measure, firsts[l], seconds[r]).rank@),
        key: |l: int, r: int| feasible_pair_key(pair, measure, firsts, seconds, l, r),
        breaks: !pair.balance_salience,
    }
}

/// Whether two fills are the pair that is found in frontiers of the given size.
pub open spec fn is_frontier_choice<F: Fn(usize, usize) -> PairFacts>(
    pair: &OverlayPair,
    measure: &F,
    size: nat,
    found: Option<(usize, usize)>,
) -> bool {
    exists|firsts: Seq<usize>, seconds: Seq<usize>|
        {
            &&& #[trigger] is_ranked_frontier(pair.first@, size, pair.slack, firsts)
            &&& #[trigger] is_ranked_frontier(pair.second@, size, pair.slack, seconds)
            &&& found == fills_at(pair_grid(pair, measure, firsts, seconds).found(), firsts, seconds)
        }
}

/// The fills at a place of two lists.
pub open spec fn fills_at(
    place: Option<(int, int)>,
    firsts: Seq<usize>,
    seconds: Seq<usize>,
) -> Option<(usize, usize)> {
    match place {
        Some((left, right)) => Some((firsts[left], seconds[right])),
        None => None,
    }
}

/// The pair that is found in two frontiers is the first of the best feasible pairs,
/// provided that, unless fills are balanced, what fills add up to by themselves ascends
/// with their order.
pub proof fn lemma_found_pair_is_best<F: Fn(usize, usize) -> PairFacts>(
    pair: &OverlayPair,
    measure: &F,
    firsts: Seq<usize>,
    seconds: Seq<usize>,
)
    requires
        pair.balance_salience || pair_grid(pair, measure, firsts, seconds).heads_ascend(),
    ensures
        is_chosen_pair(
            |l: int, r: int| feasible_pair_key(pair, measure, firsts, seconds, l, r),
            firsts,
            seconds,
            fills_at(pair_grid(pair, measure, firsts, seconds).found(), firsts, seconds),
        ),
{
    let grid = pair_grid(pair, measure, firsts, seconds);
    let keys = |l: int, r: int| feasible_pair_key(pair, measure, firsts, seconds, l, r);
    assert forall|l: int, r: int| 0 <= l < grid.rows && 0 <= r < grid.columns implies ((
    #[trigger] (grid.key)(l, r)) matches Some(key) ==> {
        &&& (grid.row_open)(l)
        &&& (grid.column_open)(r)
        &&& starts_with(key, (grid.head)(l, r))
    }) by {
        if let Some(key) = (grid.key)(l, r) {
            let rank = measured(measure, firsts[l], seconds[r]).rank@;
            assert(key.take(pair_head(rank).len() as int) =~= pair_head(rank));
        }
    }
    lemma_scan_finds_least(grid);
    assert(grid.key == keys);
    if let Some((left, right)) = grid.found() {
        assert(is_least_pair(keys, firsts.len(), seconds.len(), left, right));
    }
}

/// Whether `found` are the fills at the least key, or nothing if there is no key.
pub open spec fn is_chosen_pair(
    keys: spec_fn(int, int) -> Option<Seq<i64>>,
    firsts: Seq<usize>,
    seconds: Seq<usize>,
    found: Option<(usize, usize)>,
) -> bool {
    match found {
        None => forall|l: int, r: int|
            0 <= l < firsts.len() && 0 <= r < seconds.len() ==> (#[trigger] keys(l, r)) is None,
        Some((first, second)) => exists|l: int, r: int|
            {
                &&& #[trigger] is_least_pair(keys, firsts.len(), seconds.len(), l, r)
                &&& firsts[l] == first
                &&& seconds[r] == second
            },
    }
}

/// Whether two fills miss least among the fallback frontiers of the given size.
pub open spec fn is_fallback_choice<F: Fn(usize, usize) -> PairFacts>(
    pair: &OverlayPair,
    measure: &F,
    size: nat,
    found: Option<(usize, usize)>,
) -> bool {
    exists|firsts: Seq<usize>, seconds: Seq<usize>|
        {
            &&& #[trigger] is_frontier(
                pair.first@,
                salience_keys(pair.first@),
                size / 2,
                (size - size / 2) as nat,
                firsts,
            )
            &&& #[trigger] is_frontier(
                pair.second@,
                salience_keys(pair.second@),
                size / 2,
                (size - size / 2) as nat,
                seconds,
            )
            &&& is_chosen_pair(
                |l: int, r: int| effort_pair_key(pair, measure, firsts, seconds, l, r),
                firsts,
                seconds,
                found,
            )
        }
}

/// Whether `found` is what pairing gives: the best feasible pair of the small
/// frontiers, else of the large ones, else, if allowed, the pair that misses least.
pub open spec fn is_overlay_pair<F: Fn(usize, usize) -> PairFacts>(
    pair: &OverlayPair,
    measure: &F,
    frontier_limit: nat,
    allow_fallback: bool,
    found: Option<(usize, usize)>,
) -> bool {
    let small = frontier_limit >= 128;
    let large = frontier_limit >= 512;
    let fallback = if frontier_limit <= 256 { frontier_limit } else { 256 };
    ||| small && found is Some && is_frontier_choice(pair, measure, 128, found)
    ||| (small ==> is_frontier_choice(pair, measure, 128, None)) && large && found is Some
        && is_frontier_choice(pair, measure, 512, found)
    ||| (small ==> is_frontier_choice(pair, measure, 128, None)) && (large ==> is_frontier_choice(
        pair,
        measure,
        512,
        None,
    )) && if allow_fallback {
        is_fallback_choice(pair, measure, fallback, found)
    } else {
        found is None
    }
}

impl OverlayPair {
    fn best_of_frontier<F: Fn(usize, usize) -> PairFacts>(
        &self,
        measure: &F,
        size: usize,
    ) -> (found: Option<
        (usize, usize),
    >)
        requires
            is_measure(measure, self.first@.len(), self.second@.len()),
            forall|i: int|
                0 <= i < self.first@.len() ==> (#[trigger] self.first@[i]).rank@.len() >= 5,
            forall|i: int|
                0 <= i < self.second@.len() ==> (#[trigger] self.second@[i]).rank@.len() >= 5,
        ensures
            is_frontier_choice(self, measure, size as nat, found),
    {
        let firsts = ranked_frontier(&self.first, size, self.slack);
        let seconds = ranked_frontier(&self.second, size, self.slack);
        let ghost grid = pair_grid(self, measure, firsts@, seconds@);
        let rows = chromatic_flags(&self.first, &firsts, self.chroma_floor);
        let columns = chromatic_flags(&self.second, &seconds, self.chroma_floor);
        let cell = |l: usize, r: usize| -> (value: Cell)
            requires
                l < firsts@.len(),
                r < seconds@.len(),
            ensures
                value.is_at(pair_grid(self, measure, firsts@, seconds@), l as int, r as int),
            {
                let first = firsts[l];
                let second = seconds[r];
                assert(firsts@[l as int] < self.first@.len());
                assert(seconds@[r as int] < self.second@.len());
                assert(measurable(measure, first, second));
                let facts = measure(first, second);
                assert(facts == measured(measure, first, second));
                let key = if self.first[first].source_chroma.is_below(self.chroma_floor)
                    || self.second[second].source_chroma.is_below(self.chroma_floor)
                    || !self.limits.pair_constraints_satisfied(facts.separation) {
                    None
                } else {
                    Some(
                        pair_key_of(
                            &facts.rank,
                            self.first[first].emitted,
                            self.second[second].emitted,
                        ),
                    )
                };
                Cell { head: pair_head_of(&facts.rank), key }
            };
        match scan_pairs(&rows, &columns, !self.balance_salience, &cell, Ghost(grid)) {
            None => None,
            Some((l, r)) => Some((firsts[l], seconds[r])),
        }
    }

    fn best_of_fallback<F: Fn(usize, usize) -> PairFacts>(
        &self,
        measure: &F,
        size: usize,
    ) -> (found: Option<
        (usize, usize),
    >)
        requires
            is_measure(measure, self.first@.len(), self.second@.len()),
            forall|i: int|
                0 <= i < self.first@.len() ==> (#[trigger] self.first@[i]).rank@.len() >= 2,
            forall|i: int|
                0 <= i < self.second@.len() ==> (#[trigger] self.second@[i]).rank@.len() >= 2,
        ensures
            is_fallback_choice(self, measure, size as nat, found),
    {
        let firsts = overlay_fallback_frontier(&self.first, size);
        let seconds = overlay_fallback_frontier(&self.second, size);
        let ghost keys = |l: int, r: int|
            effort_pair_key(self, measure, firsts@, seconds@, l, r);
        let key = |l: usize, r: usize| -> (value: Option<Vec<i64>>)
            requires
                l < firsts@.len(),
                r < seconds@.len(),
            ensures
                optional_key(value) == effort_pair_key(
                    self,
                    measure,
                    firsts@,
                    seconds@,
                    l as int,
                    r as int,
                ),
            {
                let first = firsts[l];
                let second = seconds[r];
                assert(firsts@[l as int] < self.first@.len());
                assert(seconds@[r as int] < self.second@.len());
                assert(measurable(measure, first, second));
                let facts = measure(first, second);
                assert(facts == measured(measure, first, second));
                Some(
                    pair_key_of(
                        &facts.effort,
                        self.first[first].emitted,
                        self.second[second].emitted,
                    ),
                )
            };
        let found = least_pair(firsts.len(), seconds.len(), &key, Ghost(keys));
        match found {
            None => {
                assert(is_chosen_pair(keys, firsts@, seconds@, None));
                None
            },
            Some((l, r)) => {
                assert(is_least_pair(keys, firsts@.len(), seconds@.len(), l as int, r as int));
                assert(is_chosen_pair(
                    keys,
                    firsts@,
                    seconds@,
                    Some((firsts@[l as int], seconds@[r as int])),
                ));
                Some((firsts[l], seconds[r]))
            },
        }
    }

    /// Pairs two fills: the best feasible pair of growing frontiers, else, if
    /// allowed, the pair that misses least.
    pub fn solve_overlay_pair<F: Fn(usize, usize) -> PairFacts>(
        &self,
        measure: &F,
        frontier_limit: usize,
        allow_fallback: bool,
    ) -> (found: Option<(usize, usize)>)
        requires
            is_measure(measure, self.first@.len(), self.second@.len()),
            forall|i: int|
                0 <= i < self.first@.len() ==> (#[trigger] self.first@[i]).rank@.len() >= 5,
            forall|i: int|
                0 <= i < self.second@.len() ==> (#[trigger] self.second@[i]).rank@.len() >= 5,
        ensures
            is_overlay_pair(self, measure, frontier_limit as nat, allow_fallback, found),
    {
        if frontier_limit >= 128 {
            let found = self.best_of_frontier(measure, 128);
            if found.is_some() {
                return found;
            }
        }
        if frontier_limit >= 512 {
            let found = self.best_of_frontier(measure, 512);
            if found.is_some() {
                return found;
            }
        }
        if !allow_fallback {
            return None;
        }
        let size = if frontier_limit <= 256 {
            frontier_limit
        } else {
            256
        };
        self.best_of_fallback(measure, size)
    }
}

fn pair_key_of(rank: &Vec<Scalar>, left: Rgba, right: Rgba) -> (key: Vec<i64>)
    ensures
        key@ == fill_pair_key(rank@, left, right),
{
    let mut key = rank_places(rank);
    key.push(pack_fill(left));
    key.push(pack_fill(right));
    key
}

} // verus!
