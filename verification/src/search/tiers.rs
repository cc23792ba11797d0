//! The passes of a search: strict ones before the one that takes the least miss.

use crate::search::overlay::{alpha_values, alpha_values_above, lists_alphas};
use vstd::prelude::*;

verus! {

/// A pass of the search for a fill.
#[derive(Clone, Copy, Debug, PartialEq, Eq, Structural)]
pub enum OverlayPass {
    /// Feasible fills of the alphas that are preferred.
    Preferred,
    /// Feasible fills of the other alphas.
    Remaining,
    /// The fill that misses least.
    BestEffort,
}

/// Which alphas are tried, and in what order.
#[derive(Clone, Copy, Debug)]
pub struct OverlayTiers {
    pub minimum: u8,
    pub preferred_maximum: u8,
    pub maximum: u8,
    /// Whether a fill is taken that misses something.
    pub allows_misses: bool,
}

impl OverlayTiers {
    /// The pass behind all strict ones.
    pub open spec fn last_pass(self) -> Option<OverlayPass> {
        if self.allows_misses {
            Some(OverlayPass::BestEffort)
        } else {
            None
        }
    }

    /// The pass that follows, unless the search is over: a fill that was found ends it.
    pub open spec fn pass_after(self, pass: OverlayPass, found: bool) -> Option<OverlayPass> {
        if found {
            None
        } else {
            match pass {
                OverlayPass::Preferred => if self.preferred_maximum == self.maximum {
                    self.last_pass()
                } else {
                    Some(OverlayPass::Remaining)
                },
                OverlayPass::Remaining => self.last_pass(),
                OverlayPass::BestEffort => None,
            }
        }
    }

    /// The pass that follows, unless the search is over.
    pub fn next_pass(self, pass: OverlayPass, found: bool) -> (next: Option<OverlayPass>)
        ensures
            next == self.pass_after(pass, found),
    {
        if found {
            return None;
        }
        let last = if self.allows_misses {
            Some(OverlayPass::BestEffort)
        } else {
            None
        };
        match pass {
            OverlayPass::Preferred => {
                if self.preferred_maximum == self.maximum {
                    last
                } else {
                    Some(OverlayPass::Remaining)
                }
            },
            OverlayPass::Remaining => last,
            OverlayPass::BestEffort => None,
        }
    }

    /// Whether the alphas are those of a pass.
    pub open spec fn tries(self, pass: OverlayPass, alphas: Seq<u8>) -> bool {
        match pass {
            OverlayPass::Preferred => lists_alphas(self.minimum, self.preferred_maximum, alphas),
            OverlayPass::Remaining => exists|all: Seq<u8>| #[trigger]
                lists_alphas(self.minimum, self.maximum, all) && alphas == all.filter(
                    |alpha: u8| alpha > self.preferred_maximum,
                ),
            OverlayPass::BestEffort => lists_alphas(self.minimum, self.maximum, alphas),
        }
    }

    /// The alphas of a pass.
    pub fn alphas(self, pass: OverlayPass) -> (alphas: Vec<u8>)
        ensures
            self.tries(pass, alphas@),
    {
        match pass {
            OverlayPass::Preferred => alpha_values(self.minimum, self.preferred_maximum),
            OverlayPass::Remaining => alpha_values_above(
                self.minimum,
                self.preferred_maximum,
                self.maximum,
            ),
            OverlayPass::BestEffort => alpha_values(self.minimum, self.maximum),
        }
    }

    /// How many passes are left at most.
    pub open spec fn passes_left(pass: OverlayPass) -> nat {
        match pass {
            OverlayPass::Preferred => 3,
            OverlayPass::Remaining => 2,
            OverlayPass::BestEffort => 1,
        }
    }
}

/// Every search for a fill comes to an end, and a fill that misses something is taken only
/// where it is allowed and every strict pass has found nothing.
pub proof fn lemma_strict_passes_come_first(tiers: OverlayTiers, pass: OverlayPass, found: bool)
    ensures
        tiers.pass_after(pass, found) matches Some(next) ==> {
            &&& !found
            &&& OverlayTiers::passes_left(next) < OverlayTiers::passes_left(pass)
            &&& next == OverlayPass::BestEffort ==> tiers.allows_misses && (pass
                == OverlayPass::Remaining || tiers.preferred_maximum == tiers.maximum)
        },
{
}

/// A pass of the search for a pair of fills.
#[derive(Clone, Copy, Debug, PartialEq, Eq, Structural)]
pub enum PairPass {
    /// Pairs of fills that miss nothing.
    Strict,
    /// Pairs of any fills, down to the pair that misses least.
    BestEffort,
}

impl PairPass {
    /// The pass that follows, unless a pair was found or all were tried.
    pub open spec fn pass_after(self, found: bool) -> Option<PairPass> {
        if found || self == PairPass::BestEffort {
            None
        } else {
            Some(PairPass::BestEffort)
        }
    }

    /// The pass that follows, unless a pair was found or all were tried.
    pub fn next_pass(self, found: bool) -> (next: Option<PairPass>)
        ensures
            next == self.pass_after(found),
    {
        if found || self == PairPass::BestEffort {
            None
        } else {
            Some(PairPass::BestEffort)
        }
    }

    /// Whether fills that miss something are paired.
    pub fn allows_misses(self) -> (allowed: bool)
        ensures
            allowed == (self == PairPass::BestEffort),
    {
        self == PairPass::BestEffort
    }
}

} // verus!
