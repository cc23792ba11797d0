//! Fits of several colors that differ from one another.

use crate::color::Rgb24;
use crate::search::select::{
    choose_distinct, is_distinct_choice, is_fresh, lemma_distinct_choice_differs, Candidate,
    DistinctFacts, DistinctLimits,
};
use vstd::prelude::*;

verus! {

/// Whether the candidates are those of the facts, with their ranks.
pub open spec fn ranks_distinct(
    limits: DistinctLimits,
    facts: Seq<DistinctFacts>,
    candidates: Seq<Candidate>,
) -> bool {
    &&& candidates.len() == facts.len()
    &&& forall|i: int|
        0 <= i < facts.len() ==> limits.is_candidate(facts[i], #[trigger] candidates[i])
}

/// Whether `color` is chosen next to the colors chosen before: the choice among the fresh
/// candidates, or the first candidate if all are taken.
pub open spec fn is_next_color(
    limits: DistinctLimits,
    chosen: Seq<Rgb24>,
    facts: Seq<DistinctFacts>,
    color: Rgb24,
) -> bool {
    exists|candidates: Seq<Candidate>, position: int|
        {
            &&& ranks_distinct(limits, facts, candidates)
            &&& 0 <= position < candidates.len()
            &&& color == candidates[position].color
            &&& #[trigger] is_position(chosen, candidates, position)
        }
}

/// Whether `position` is chosen next to the colors chosen before.
pub open spec fn is_position(chosen: Seq<Rgb24>, candidates: Seq<Candidate>, position: int) -> bool {
    if exists|i: int| 0 <= i < candidates.len() && #[trigger] is_fresh(chosen, candidates, i) {
        is_distinct_choice(chosen, candidates, position)
    } else {
        position == 0
    }
}

/// Whether the candidates of every seed can be measured next to any colors, and there is
/// always one.
pub open spec fn offers_colors<F: Fn(usize, Vec<Rgb24>) -> Vec<DistinctFacts>>(
    measure: &F,
    count: nat,
) -> bool {
    forall|seed: usize, chosen: Vec<Rgb24>|
        seed < count ==> #[trigger] call_requires(*measure, (seed, chosen)) && forall|
            facts: Vec<DistinctFacts>,
        |
            #[trigger]
            call_ensures(*measure, (seed, chosen), facts) ==> facts@.len() > 0
}

/// Whether the candidates of every seed hold a color other than those chosen before.
pub open spec fn offers_others<F: Fn(usize, Vec<Rgb24>) -> Vec<DistinctFacts>>(
    measure: &F,
    count: nat,
) -> bool {
    forall|seed: usize, chosen: Vec<Rgb24>, facts: Vec<DistinctFacts>|
        seed < count && chosen@.len() == seed && #[trigger] call_ensures(
            *measure,
            (seed, chosen),
            facts,
        ) ==> exists|i: int|
            0 <= i < facts@.len() && !chosen@.contains((#[trigger] facts@[i]).color)
}

/// Whether `color` is what the seed is fitted to next to the colors chosen before.
pub open spec fn is_fitted_next<F: Fn(usize, Vec<Rgb24>) -> Vec<DistinctFacts>>(
    measure: &F,
    limits: DistinctLimits,
    seed: usize,
    chosen: Seq<Rgb24>,
    color: Rgb24,
) -> bool {
    exists|held: Vec<Rgb24>, facts: Vec<DistinctFacts>|
        {
            &&& held@ == chosen
            &&& #[trigger] call_ensures(*measure, (seed, held), facts)
            &&& is_next_color(limits, chosen, facts@, color)
        }
}

fn candidates_of(limits: DistinctLimits, facts: &Vec<DistinctFacts>) -> (candidates: Vec<Candidate>)
    ensures
        ranks_distinct(limits, facts@, candidates@),
{
    let mut candidates: Vec<Candidate> = Vec::new();
    let mut index: usize = 0;
    while index < facts.len()
        invariant
            index <= facts@.len(),
            candidates@.len() == index,
            forall|i: int|
                0 <= i < index ==> limits.is_candidate(facts@[i], #[trigger] candidates@[i]),
        decreases facts@.len() - index,
    {
        candidates.push(limits.candidate(facts[index]));
        index += 1;
    }
    candidates
}

fn copy_colors(colors: &Vec<Rgb24>) -> (copy: Vec<Rgb24>)
    ensures
        copy@ == colors@,
{
    let mut copy: Vec<Rgb24> = Vec::new();
    let mut index: usize = 0;
    while index < colors.len()
        invariant
            index <= colors@.len(),
            copy@ == colors@.take(index as int),
        decreases colors@.len() - index,
    {
        copy.push(colors[index]);
        index += 1;
        assert(copy@ =~= colors@.take(index as int));
    }
    assert(copy@ =~= colors@);
    copy
}

/// Fits several seeds, one after the other: the first stays as it was fitted by itself,
/// and each of the others is chosen next to those before it. `measure` gives the
/// candidates of a seed next to the colors chosen before. All colors differ if there is
/// always another one.
pub fn fit_distinct<F: Fn(usize, Vec<Rgb24>) -> Vec<DistinctFacts>>(
    fitted: &Vec<Rgb24>,
    limits: DistinctLimits,
    measure: &F,
) -> (colors: Vec<Rgb24>)
    requires
        offers_colors(measure, fitted@.len()),
    ensures
        colors@.len() == fitted@.len(),
        colors@.len() > 0 ==> colors@[0] == fitted@[0],
        forall|i: int|
            0 < i < colors@.len() ==> is_fitted_next(
                measure,
                limits,
                i as usize,
                colors@.take(i),
                #[trigger] colors@[i],
            ),
        offers_others(measure, fitted@.len()) ==> colors@.no_duplicates(),
{
    let mut colors: Vec<Rgb24> = Vec::new();
    let mut index: usize = 0;
    while index < fitted.len()
        invariant
            offers_colors(measure, fitted@.len()),
            index <= fitted@.len(),
            colors@.len() == index,
            index > 0 ==> colors@[0] == fitted@[0],
            forall|i: int|
                0 < i < index ==> is_fitted_next(
                    measure,
                    limits,
                    i as usize,
                    colors@.take(i),
                    #[trigger] colors@[i],
                ),
            offers_others(measure, fitted@.len()) ==> colors@.no_duplicates(),
        decreases fitted@.len() - index,
    {
        let ghost chosen = colors@;
        if index == 0 {
            colors.push(fitted[0]);
        } else {
            let held = copy_colors(&colors);
            let ghost before = held;
            assert(call_requires(*measure, (index, before)));
            let facts = measure(index, held);
            assert(call_ensures(*measure, (index, before), facts));
            assert(facts@.len() > 0);
            let candidates = candidates_of(limits, &facts);
            let position = choose_distinct(&colors, &candidates);
            let color = candidates[position].color;
            proof {
                assert(is_position(chosen, candidates@, position as int));
                assert(is_next_color(limits, chosen, facts@, color));
                assert(is_fitted_next(measure, limits, index, chosen, color));
                if offers_others(measure, fitted@.len()) {
                    let other = choose|i: int|
                        0 <= i < facts@.len() && !before@.contains((#[trigger] facts@[i]).color);
                    assert(limits.is_candidate(facts@[other], candidates@[other]));
                    lemma_distinct_choice_differs(chosen, candidates@, position as int, other);
                }
            }
            colors.push(color);
        }
        proof {
            assert forall|i: int| 0 < i < index + 1 implies is_fitted_next(
                measure,
                limits,
                i as usize,
                colors@.take(i),
                #[trigger] colors@[i],
            ) by {
                assert(colors@.take(i) =~= chosen.take(i));
                if i == index {
                    assert(chosen.take(i) =~= chosen);
                } else {
                    assert(chosen[i] == colors@[i]);
                }
            }
        }
        index += 1;
    }
    colors
}

} // verus!
