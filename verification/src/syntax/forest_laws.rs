//! What the selection of syntax families achieves.

use crate::syntax::forest::{exceeds, Choice, SemanticForest};
use crate::syntax::plan::MergePlan;
use crate::syntax::{realizes, FamilyFacts, SemanticPlan};
use vstd::arithmetic::power2::pow2;
use vstd::prelude::*;

verus! {

impl SemanticForest {
    /// Whether the choice is a trunk.
    pub open spec fn chooses_trunk(&self, choice: Choice) -> bool {
        self.parents@[choice.family as int] is None
    }

    /// How many trunks are chosen.
    pub open spec fn trunk_total(&self, choices: Seq<Choice>) -> nat {
        choices.filter(|choice: Choice| self.chooses_trunk(choice)).len()
    }

    /// How many trunks are colored from an authored color.
    pub open spec fn authored_total(&self, choices: Seq<Choice>) -> nat {
        choices.filter(|choice: Choice| self.chooses_trunk(choice) && choice.source is Some).len()
    }

    /// Whether a trunk is colored from the hue cluster.
    pub open spec fn has_hue(&self, choices: Seq<Choice>, cluster: usize) -> bool {
        exists|i: int|
            {
                &&& 0 <= i < choices.len()
                &&& self.chooses_trunk(#[trigger] choices[i])
                &&& choices[i].source matches Some(source) && self.clusters@[source as int] == Some(
                    cluster,
                )
            }
    }

    /// The hue clusters that trunks are colored from.
    pub open spec fn hues(&self, choices: Seq<Choice>) -> Set<usize> {
        Set::new(|cluster: usize| self.has_hue(choices, cluster))
    }

    proof fn lemma_totals(&self, choices: Seq<Choice>)
        ensures
            self.trunks(choices) == self.trunk_total(choices),
            self.authored(choices) == self.authored_total(choices),
            self.trunk_clusters(choices) == self.hues(choices),
        decreases choices.len(),
    {
        reveal(Seq::filter);
        if choices.len() == 0 {
            assert(self.trunk_clusters(choices) =~= self.hues(choices));
        } else {
            let shorter = choices.drop_last();
            self.lemma_totals(shorter);
            let last = choices[choices.len() - 1];
            assert forall|cluster: usize|
                self.trunk_clusters(choices).contains(cluster) <==> self.has_hue(
                    choices,
                    cluster,
                ) by {
                assert(self.hues(shorter).contains(cluster) <==> self.has_hue(shorter, cluster));
                if self.has_hue(choices, cluster) {
                    let i = choose|i: int|
                        {
                            &&& 0 <= i < choices.len()
                            &&& self.chooses_trunk(#[trigger] choices[i])
                            &&& choices[i].source matches Some(source)
                                && self.clusters@[source as int] == Some(cluster)
                        };
                    if i < shorter.len() {
                        assert(self.chooses_trunk(shorter[i]));
                    }
                }
                if self.has_hue(shorter, cluster) {
                    let i = choose|i: int|
                        {
                            &&& 0 <= i < shorter.len()
                            &&& self.chooses_trunk(#[trigger] shorter[i])
                            &&& shorter[i].source matches Some(source)
                                && self.clusters@[source as int] == Some(cluster)
                        };
                    assert(self.chooses_trunk(choices[i]));
                }
                assert(choices[choices.len() - 1] == last);
                assert(self.chooses_trunk(last) <==> self.is_trunk(last.family as int));
            }
            assert(self.trunk_clusters(choices) =~= self.hues(choices));
        }
    }

    /// A trunk adds to what a selection is worth how well its source suits it, if it has one;
    /// every family adds to it by its place in the forest, an earlier one more than all behind
    /// it.
    pub proof fn lemma_worth_adds_up(&self, choices: Seq<Choice>, choice: Choice)
        requires
            self.wf(),
            self.in_range(choice),
        ensures
            self.preference(Seq::empty()) == 0 && self.priority(Seq::empty()) == 0,
            self.preference(choices.push(choice)) == self.preference(choices) + if self.chooses_trunk(
                choice,
            ) && choice.source is Some {
                self.preferences@[choice.family as int]@[choice.source->0 as int] as int
            } else {
                0
            },
            self.priority(choices.push(choice)) == self.priority(choices) + pow2(
                (self.count() - 1 - choice.family) as nat,
            ),
    {
        assert(choices.push(choice).drop_last() =~= choices);
    }

    /// No selection that can be built has more trunks than the one found; none with as many
    /// trunks has more hues; none with as many hues has more branches; and none with as
    /// many branches has more trunks that are colored from authored colors.
    pub proof fn lemma_selection_has_most(&self, whole: Seq<Choice>)
        requires
            self.wf(),
            self.buildable(whole),
        ensures
            ({
                let found = self.explored(0, Seq::empty(), Seq::empty());
                let fewer = self.trunk_total(whole);
                &&& fewer <= self.trunk_total(found)
                &&& fewer == self.trunk_total(found) ==> {
                    &&& self.hues(whole).len() <= self.hues(found).len()
                    &&& self.hues(whole).len() == self.hues(found).len() ==> {
                        &&& whole.len() <= found.len()
                        &&& whole.len() == found.len() ==> {
                            &&& self.authored_total(whole) <= self.authored_total(found)
                            &&& self.authored_total(whole) == self.authored_total(found) ==> {
                                &&& self.preference(whole) <= self.preference(found)
                                &&& self.preference(whole) == self.preference(found)
                                    ==> self.priority(whole) <= self.priority(found)
                            }
                        }
                    }
                }
            }),
    {
        self.lemma_selection_is_optimal(whole);
        let found = self.explored(0, Seq::empty(), Seq::empty());
        self.lemma_totals(whole);
        self.lemma_totals(found);
        assert(!exceeds(self.score(whole), self.score(found)));
    }

    /// Two trunks of a selection that can be built use different sources and different hues,
    /// the colors of any two of its families stand apart, every color can be rendered, and a
    /// branch has the source of its parent, which is chosen before it.
    pub proof fn lemma_selection_stands_apart(&self, choices: Seq<Choice>, first: int, second: int)
        requires
            self.wf(),
            self.buildable(choices),
            0 <= first < second < choices.len(),
        ensures
            choices[first].family < choices[second].family,
            self.separated@[self.cell(choices[second])]@[self.cell(choices[first])],
            self.viable@[choices[second].family as int]@[match choices[second].source {
                Some(source) => source + 1,
                None => 0,
            }],
            self.chooses_trunk(choices[first]) && self.chooses_trunk(choices[second])
                && choices[first].source is Some && choices[second].source is Some ==> {
                let one = choices[first].source->0;
                let other = choices[second].source->0;
                &&& one != other
                &&& self.clusters@[one as int] is Some ==> self.clusters@[one as int]
                    != self.clusters@[other as int]
            },
            self.parents@[choices[second].family as int] matches Some(parent) ==> exists|i: int|
                0 <= i < second && (#[trigger] choices[i]).family == parent && choices[i].source
                    == choices[second].source,
    {
        let before = choices.take(second);
        let choice = choices[second];
        assert(self.admits(before, choice));
        assert(before[first] == choices[first]);
        if self.chooses_trunk(choices[first]) && self.chooses_trunk(choice)
            && choices[first].source is Some && choice.source is Some {
            let one = choices[first].source->0;
            let other = choice.source->0;
            assert(self.available(before, other as int));
            assert(self.is_trunk(before[first].family as int));
            if one == other {
                assert(self.uses_source(before, other as int));
            }
            if self.clusters@[one as int] is Some && self.clusters@[one as int]
                == self.clusters@[other as int] {
                assert(self.choice_cluster(before[first]) == self.clusters@[one as int]);
                assert(self.uses_cluster(before, self.clusters@[other as int]->0));
            }
        }
        if let Some(parent) = self.parents@[choice.family as int] {
            assert(self.tries(choice.family as int, before).contains(choice.source));
            let at = self.index_of(before, parent);
            assert(self.chooses(before, parent));
            assert(choices[at] == before[at]);
        }
    }
}

/// A plan that realizes a selection has one family for each choice, in its order, with the
/// source that was chosen and the color that was rendered from it.
pub proof fn lemma_plan_has_the_chosen_colors(
    semantic: SemanticPlan,
    hierarchy: MergePlan,
    facts: FamilyFacts,
    choices: Seq<Choice>,
    index: int,
)
    requires
        realizes(semantic, hierarchy, facts, choices),
        0 <= index < choices.len(),
    ensures
        semantic.allocations@.len() == choices.len(),
        semantic.plan.families@.len() == choices.len(),
        ({
            let choice = choices[index];
            let allocation = semantic.allocations@[index];
            let slots = facts.renderings@[choice.family as int]@;
            let rendering = match choice.source {
                Some(source) => slots[source + 1],
                None => slots[0],
            };
            &&& rendering is Some
            &&& allocation.output@ == rendering->0.output@
            &&& allocation.measured_saliency == rendering->0.saliency
            &&& allocation.source == choice.source
            &&& allocation.family == index
            &&& allocation.roles@ == semantic.plan.families@[index].roles@
        }),
{
    let allocation = semantic.allocations@[index];
}

} // verus!
