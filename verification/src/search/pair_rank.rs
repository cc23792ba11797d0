//! What pairs of colors and pairs of fills are ranked by.

use crate::scalar::Scalar;
use crate::search::overlay::FillCandidate;
use crate::search::pair::{PairFacts, PairSeparation};
use vstd::prelude::*;

verus! {

/// The sums that a pair of opaque colors is ranked by.
#[derive(Clone, Copy, Debug)]
pub struct ColorPairTotals {
    /// How far both colors are from the lightness of their backgrounds.
    pub background: Scalar,
    /// How far both colors are from their seeds.
    pub transform: Scalar,
    /// How much of their seeds' chroma both colors lost.
    pub lost_retention: Scalar,
    /// How far the first color is from its seed.
    pub first_distance: Scalar,
    /// How far the colors miss their own limits.
    pub own_deficit: Scalar,
    /// How far the pair misses its separation.
    pub pair_deficit: Scalar,
}

impl ColorPairTotals {
    /// What counts before everything else: the backgrounds if they are preferred, else
    /// the seeds.
    pub open spec fn primary(self, prefer_background: bool) -> Scalar {
        if prefer_background {
            self.background
        } else {
            self.transform
        }
    }

    /// The rank of a pair that keeps every floor.
    pub open spec fn rank(self, prefer_background: bool) -> Seq<Scalar> {
        seq![
            self.primary(prefer_background),
            self.transform,
            self.lost_retention,
            self.first_distance,
        ]
    }

    /// The rank of a pair by what it misses.
    pub open spec fn effort(self, prefer_background: bool) -> Seq<Scalar> {
        seq![
            self.own_deficit,
            self.pair_deficit,
            self.primary(prefer_background),
            self.transform,
            self.lost_retention,
        ]
    }
}

/// A pair of opaque colors with its ranks.
pub fn color_pair_facts(
    separation: PairSeparation,
    totals: ColorPairTotals,
    prefer_background: bool,
) -> (facts: PairFacts)
    ensures
        facts.separation == separation,
        facts.rank@ == totals.rank(prefer_background),
        facts.effort@ == totals.effort(prefer_background),
{
    let primary = if prefer_background {
        totals.background
    } else {
        totals.transform
    };
    let rank = vec![primary, totals.transform, totals.lost_retention, totals.first_distance];
    let effort = vec![
        totals.own_deficit,
        totals.pair_deficit,
        primary,
        totals.transform,
        totals.lost_retention,
    ];
    assert(rank@ =~= totals.rank(prefer_background));
    assert(effort@ =~= totals.effort(prefer_background));
    PairFacts { separation, rank, effort }
}

/// The part of a fill's rank that pairing adds up: a fill that misses nothing is ranked by
/// what comes behind its misses.
pub open spec fn prefix_of(rank: Seq<Scalar>, slack: Scalar) -> Seq<Scalar> {
    if rank[0].at_most(slack) && rank[1].at_most(slack) {
        seq![rank[2], rank[3], rank[4]]
    } else {
        seq![rank[0], rank[1], rank[2]]
    }
}

/// The part of a fill's rank that pairing adds up.
pub fn rank_prefix(fill: &FillCandidate, slack: Scalar) -> (prefix: Vec<Scalar>)
    requires
        fill.rank@.len() >= 5,
    ensures
        prefix@ == prefix_of(fill.rank@, slack),
{
    let rank = &fill.rank;
    let prefix = if rank[0].is_at_most(slack) && rank[1].is_at_most(slack) {
        vec![rank[2], rank[3], rank[4]]
    } else {
        vec![rank[0], rank[1], rank[2]]
    };
    assert(prefix@ =~= prefix_of(fill.rank@, slack));
    prefix
}

/// The sums that a pair of fills is ranked by.
#[derive(Clone, Copy, Debug)]
pub struct FillPairTotals {
    /// The sums of both rank prefixes.
    pub prefix: (Scalar, Scalar, Scalar),
    /// How differently the fills stand out from their backgrounds.
    pub imbalance: Scalar,
    /// How far the fills and the pair miss their limits.
    pub deficit: Scalar,
    /// The second and third parts of both ranks, added up.
    pub rank: (Scalar, Scalar),
    /// How far apart the fills are, negated.
    pub lost_normal: Scalar,
    pub lost_cvd: Scalar,
    /// Both of them together, negated.
    pub lost_distance: Scalar,
    /// The contrast and the lightness between the fills together, negated.
    pub lost_contrast: Scalar,
}

impl FillPairTotals {
    /// The rank of a pair that keeps every floor. Where the fills are to stand out alike,
    /// that comes right behind the second part of their ranks.
    pub open spec fn rank(self, balance_salience: bool) -> Seq<Scalar> {
        if balance_salience {
            seq![
                self.prefix.1,
                self.imbalance,
                self.prefix.0,
                self.prefix.2,
                self.lost_distance,
                self.lost_contrast,
            ]
        } else {
            seq![
                self.prefix.0,
                self.prefix.1,
                self.prefix.2,
                self.lost_distance,
                self.lost_contrast,
                Scalar { bits: 0 },
            ]
        }
    }

    /// The rank of a pair by what it misses.
    pub open spec fn effort(self) -> Seq<Scalar> {
        seq![
            self.deficit,
            self.rank.0,
            self.imbalance,
            self.rank.1,
            self.lost_normal,
            self.lost_cvd,
            self.lost_contrast,
        ]
    }
}

/// A pair of fills with its ranks.
pub fn fill_pair_facts(
    separation: PairSeparation,
    totals: FillPairTotals,
    balance_salience: bool,
) -> (facts: PairFacts)
    ensures
        facts.separation == separation,
        facts.rank@ == totals.rank(balance_salience),
        facts.effort@ == totals.effort(),
{
    let (first, second, third) = totals.prefix;
    let rank = if balance_salience {
        vec![
            second,
            totals.imbalance,
            first,
            third,
            totals.lost_distance,
            totals.lost_contrast,
        ]
    } else {
        vec![
            first,
            second,
            third,
            totals.lost_distance,
            totals.lost_contrast,
            Scalar { bits: 0 },
        ]
    };
    let effort = vec![
        totals.deficit,
        totals.rank.0,
        totals.imbalance,
        totals.rank.1,
        totals.lost_normal,
        totals.lost_cvd,
        totals.lost_contrast,
    ];
    assert(rank@ =~= totals.rank(balance_salience));
    assert(effort@ =~= totals.effort());
    PairFacts { separation, rank, effort }
}

} // verus!
