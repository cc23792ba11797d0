//! Choosing border colors among measured candidates.

use crate::scalar::Scalar;
use vstd::prelude::*;

verus! {

/// Whether a rank is at or above another of the same length: at the first place
/// where the two are not equal, it is the greater one. A measurement that is not a
/// number is neither equal nor greater.
pub open spec fn at_or_above(rank: Seq<Scalar>, other: Seq<Scalar>) -> bool
    decreases rank.len(),
{
    if rank.len() == 0 {
        true
    } else if rank[0].at_most(other[0]) && other[0].at_most(rank[0]) {
        at_or_above(rank.skip(1), other.skip(1))
    } else {
        other[0].less(rank[0])
    }
}

fn is_at_or_above(rank: &Vec<Scalar>, other: &Vec<Scalar>) -> (above: bool)
    requires
        rank@.len() == other@.len(),
    ensures
        above == at_or_above(rank@, other@),
{
    let mut index: usize = 0;
    assert(rank@.skip(0) =~= rank@);
    assert(other@.skip(0) =~= other@);
    while index < rank.len()
        invariant
            rank@.len() == other@.len(),
            index <= rank@.len(),
            at_or_above(rank@, other@) == at_or_above(
                rank@.skip(index as int),
                other@.skip(index as int),
            ),
        decreases rank@.len() - index,
    {
        let one = rank[index];
        let two = other[index];
        assert(rank@.skip(index as int).skip(1) =~= rank@.skip(index + 1));
        assert(other@.skip(index as int).skip(1) =~= other@.skip(index + 1));
        if !(one.is_at_most(two) && two.is_at_most(one)) {
            return two.is_below(one);
        }
        index += 1;
    }
    true
}

/// The ranks as sequences.
pub open spec fn rank_views(ranks: Seq<Vec<Scalar>>) -> Seq<Seq<Scalar>> {
    Seq::new(ranks.len(), |i: int| ranks[i]@)
}

/// The rank that a walk over the ranks ends with, if each rank that is not at or
/// above the one held takes its place.
pub open spec fn last_taken(ranks: Seq<Seq<Scalar>>) -> int
    decreases ranks.len(),
{
    if ranks.len() <= 1 {
        0
    } else {
        let held = last_taken(ranks.drop_last());
        if at_or_above(ranks.last(), ranks[held]) {
            held
        } else {
            ranks.len() - 1
        }
    }
}

/// Chooses among ranked candidates: the first of the lowest.
pub fn lowest(ranks: &Vec<Vec<Scalar>>) -> (found: Option<usize>)
    requires
        forall|i: int, j: int|
            0 <= i < ranks@.len() && 0 <= j < ranks@.len() ==> (#[trigger] ranks@[i])@.len() == (
            #[trigger] ranks@[j])@.len(),
    ensures
        found is None <==> ranks@.len() == 0,
        found matches Some(index) ==> index < ranks@.len() && index == last_taken(
            rank_views(ranks@),
        ),
{
    if ranks.len() == 0 {
        return None;
    }
    let ghost views = rank_views(ranks@);
    let mut held: usize = 0;
    let mut index: usize = 1;
    while index < ranks.len()
        invariant
            views == rank_views(ranks@),
            forall|i: int, j: int|
                0 <= i < ranks@.len() && 0 <= j < ranks@.len() ==> (#[trigger] ranks@[i])@.len()
                    == (#[trigger] ranks@[j])@.len(),
            held < index <= ranks@.len(),
            held == last_taken(views.take(index as int)),
        decreases ranks@.len() - index,
    {
        assert(views.take(index + 1).drop_last() =~= views.take(index as int));
        assert(views.take(index + 1).last() == ranks@[index as int]@);
        assert(views.take(index + 1)[held as int] == ranks@[held as int]@);
        if !is_at_or_above(&ranks[index], &ranks[held]) {
            held = index;
        }
        index += 1;
    }
    assert(views.take(index as int) =~= views);
    Some(held)
}

/// Whether every measurement of a rank is a number.
pub open spec fn is_numeric(rank: Seq<Scalar>) -> bool {
    forall|i: int| 0 <= i < rank.len() ==> !(#[trigger] rank[i]).is_nan_view()
}

/// On numbers, the order of ranks is total and transitive.
pub proof fn lemma_rank_order(first: Seq<Scalar>, second: Seq<Scalar>, third: Seq<Scalar>)
    requires
        first.len() == second.len(),
        second.len() == third.len(),
        is_numeric(first),
        is_numeric(second),
        is_numeric(third),
    ensures
        at_or_above(first, second) || at_or_above(second, first),
        at_or_above(first, second) && at_or_above(second, third) ==> at_or_above(first, third),
    decreases first.len(),
{
    if first.len() > 0 {
        assert(first[0].level() == first[0].level());
        assert(!first[0].is_nan_view() && !second[0].is_nan_view() && !third[0].is_nan_view());
        lemma_rank_order(first.skip(1), second.skip(1), third.skip(1));
    }
}

/// Among ranks of numbers, the one chosen is the lowest, and lower than all before
/// it.
pub proof fn lemma_lowest(ranks: Seq<Seq<Scalar>>, index: int)
    requires
        0 <= index < ranks.len(),
        forall|i: int|
            0 <= i < ranks.len() ==> is_numeric(#[trigger] ranks[i]) && ranks[i].len()
                == ranks[0].len(),
    ensures
        0 <= last_taken(ranks) < ranks.len(),
        at_or_above(ranks[index], ranks[last_taken(ranks)]),
        index < last_taken(ranks) ==> !at_or_above(ranks[last_taken(ranks)], ranks[index]),
    decreases ranks.len(),
{
    if ranks.len() == 1 {
        lemma_rank_order(ranks[0], ranks[0], ranks[0]);
    } else {
        let shorter = ranks.drop_last();
        let last = ranks.len() - 1;
        assert forall|i: int| 0 <= i < shorter.len() implies is_numeric(#[trigger] shorter[i])
            && shorter[i].len() == shorter[0].len() by {
            assert(shorter[i] == ranks[i]);
        }
        lemma_lowest(shorter, 0);
        let held = last_taken(shorter);
        assert(shorter[held] == ranks[held]);
        if index < last {
            lemma_lowest(shorter, index);
            assert(shorter[index] == ranks[index]);
            lemma_rank_order(ranks[last], ranks[held], ranks[last]);
            lemma_rank_order(ranks[index], ranks[held], ranks[last]);
            lemma_rank_order(ranks[last], ranks[index], ranks[held]);
        } else {
            lemma_rank_order(ranks[last], ranks[last], ranks[last]);
        }
    }
}

/// The surface that borders must stay beyond: the lightest of them if the borders are
/// lighter than the canvas, else the darkest.
pub open spec fn edge_of(luminances: Seq<Scalar>, lighter: bool) -> Scalar
    decreases luminances.len(),
{
    if luminances.len() <= 1 {
        luminances[0]
    } else if lighter {
        edge_of(luminances.drop_last(), lighter).larger(luminances.last())
    } else {
        edge_of(luminances.drop_last(), lighter).smaller(luminances.last())
    }
}

/// The luminance that borders must stay beyond.
pub fn edge(luminances: &Vec<Scalar>, lighter: bool) -> (found: Scalar)
    requires
        luminances@.len() > 0,
    ensures
        found == edge_of(luminances@, lighter),
{
    let mut found = luminances[0];
    let mut index: usize = 1;
    while index < luminances.len()
        invariant
            0 < index <= luminances@.len(),
            found == edge_of(luminances@.take(index as int), lighter),
        decreases luminances@.len() - index,
    {
        assert(luminances@.take(index + 1).drop_last() =~= luminances@.take(index as int));
        found = if lighter {
            found.max(luminances[index])
        } else {
            found.min(luminances[index])
        };
        index += 1;
    }
    assert(luminances@.take(index as int) =~= luminances@);
    found
}

/// Whether a candidate lies on the wrong side of the edge.
pub open spec fn crosses(luminance: Scalar, edge: Scalar, lighter: bool) -> bool {
    if lighter {
        luminance.less(edge)
    } else {
        edge.less(luminance)
    }
}

/// Whether a candidate lies on the wrong side of the edge.
pub fn crosses_surface(luminance: Scalar, edge: Scalar, lighter: bool) -> (wrong: bool)
    ensures
        wrong == crosses(luminance, edge, lighter),
{
    if lighter {
        luminance.is_below(edge)
    } else {
        edge.is_below(luminance)
    }
}

/// The pairs of one passive candidate with the first `count` normal ones that do not
/// stand out less than it.
pub open spec fn row(
    luminances: Seq<Scalar>,
    lighter: bool,
    passive: int,
    count: int,
) -> Seq<(usize, usize)>
    decreases count,
{
    if count <= 0 {
        Seq::empty()
    } else {
        let before = row(luminances, lighter, passive, count - 1);
        if crosses(luminances[count - 1], luminances[passive], lighter) {
            before
        } else {
            before.push((passive as usize, (count - 1) as usize))
        }
    }
}

/// The pairs of the first `count` passive candidates, in order.
pub open spec fn rows(luminances: Seq<Scalar>, lighter: bool, count: int) -> Seq<(usize, usize)>
    decreases count,
{
    if count <= 0 {
        Seq::empty()
    } else {
        rows(luminances, lighter, count - 1) + row(
            luminances,
            lighter,
            count - 1,
            luminances.len() as int,
        )
    }
}

/// Every pair of a passive and a normal border in which the normal one does not stand
/// out less than the passive one, in order of the passive ones.
pub fn pairings(luminances: &Vec<Scalar>, lighter: bool) -> (pairs: Vec<(usize, usize)>)
    ensures
        pairs@ == rows(luminances@, lighter, luminances@.len() as int),
{
    let mut pairs: Vec<(usize, usize)> = Vec::new();
    let mut passive: usize = 0;
    while passive < luminances.len()
        invariant
            passive <= luminances@.len(),
            pairs@ == rows(luminances@, lighter, passive as int),
        decreases luminances@.len() - passive,
    {
        let ghost before = pairs@;
        let mut normal: usize = 0;
        assert(before + row(luminances@, lighter, passive as int, 0) =~= before);
        while normal < luminances.len()
            invariant
                passive < luminances@.len(),
                normal <= luminances@.len(),
                pairs@ == before + row(luminances@, lighter, passive as int, normal as int),
            decreases luminances@.len() - normal,
        {
            let ghost held = pairs@;
            if !crosses_surface(luminances[normal], luminances[passive], lighter) {
                pairs.push((passive, normal));
            }
            assert(pairs@ =~= before + row(
                luminances@,
                lighter,
                passive as int,
                normal + 1,
            ));
            normal += 1;
        }
        passive += 1;
    }
    pairs
}

/// Every candidate can be paired with itself, so there is a pair if there is a
/// candidate.
pub proof fn lemma_every_candidate_is_paired(luminances: Seq<Scalar>, lighter: bool, index: int)
    requires
        0 <= index < luminances.len() <= usize::MAX,
    ensures
        rows(luminances, lighter, luminances.len() as int).contains((index as usize, index as usize)),
{
    lemma_row_holds(luminances, lighter, index, luminances.len() as int);
    lemma_rows_hold(luminances, lighter, index, luminances.len() as int);
}

proof fn lemma_row_holds(luminances: Seq<Scalar>, lighter: bool, index: int, count: int)
    requires
        0 <= index < count <= luminances.len(),
        luminances.len() <= usize::MAX,
    ensures
        row(luminances, lighter, index, count).contains((index as usize, index as usize)),
    decreases count,
{
    let before = row(luminances, lighter, index, count - 1);
    let pair = (index as usize, index as usize);
    if index < count - 1 {
        lemma_row_holds(luminances, lighter, index, count - 1);
        let at = choose|at: int| 0 <= at < before.len() && before[at] == pair;
        assert(row(luminances, lighter, index, count)[at] == pair);
    } else {
        assert(before.push(pair)[before.len() as int] == pair);
    }
}

proof fn lemma_rows_hold(luminances: Seq<Scalar>, lighter: bool, index: int, count: int)
    requires
        0 <= index < count <= luminances.len(),
        luminances.len() <= usize::MAX,
    ensures
        rows(luminances, lighter, count).contains((index as usize, index as usize)),
    decreases count,
{
    let before = rows(luminances, lighter, count - 1);
    let added = row(luminances, lighter, count - 1, luminances.len() as int);
    let pair = (index as usize, index as usize);
    if index < count - 1 {
        lemma_rows_hold(luminances, lighter, index, count - 1);
        let at = choose|at: int| 0 <= at < before.len() && before[at] == pair;
        assert((before + added)[at] == pair);
    } else {
        lemma_row_holds(luminances, lighter, index, luminances.len() as int);
        let at = choose|at: int| 0 <= at < added.len() && added[at] == pair;
        assert((before + added)[before.len() + at] == pair);
    }
}

} // verus!
