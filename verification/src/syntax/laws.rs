//! What a palette's syntax families are is determined by what was measured.

use crate::order::{is_stable_order, lemma_stable_order_unique};
use crate::syntax::forest::SemanticForest;
use crate::syntax::plan::{MergePlan, SemanticRole};
use crate::syntax::profile::{evidence_keys, EvidenceColor, SyntaxProfile};
use crate::syntax::{
    describes, is_affinity, is_cluster_of, is_preference_value, is_priority, is_source_key,
    lists_roots, preferred_keys, ranks_sources, realizes, FamilyFacts, SemanticPlan,
};
use crate::text::slice_views;
use vstd::prelude::*;

verus! {

proof fn lemma_one_affinity(
    role: SemanticRole,
    keys: Seq<Seq<char>>,
    one: Option<usize>,
    other: Option<usize>,
)
    requires
        is_affinity(role, keys, one),
        is_affinity(role, keys, other),
    ensures
        one == other,
{
    if let Some(rank) = one {
        let key = preferred_keys(role)[rank as int];
        if let Some(second) = other {
            let second_key = preferred_keys(role)[second as int];
        }
    }
    if let Some(rank) = other {
        let key = preferred_keys(role)[rank as int];
    }
}

proof fn lemma_one_priority(keys: Seq<Seq<char>>, one: int, other: int)
    requires
        is_priority(keys, one),
        is_priority(keys, other),
    ensures
        one == other,
{
    let first = evidence_keys()[one];
    let second = evidence_keys()[other];
}

proof fn lemma_one_preference(role: SemanticRole, source: EvidenceColor, one: int, other: int)
    requires
        is_preference_value(role, source, one),
        is_preference_value(role, source, other),
    ensures
        one == other,
{
    let keys = slice_views(source.keys@);
    let (rank, priority) = choose|rank: Option<usize>, priority: int|
        {
            &&& #[trigger] is_affinity(role, keys, rank)
            &&& #[trigger] is_priority(keys, priority)
            &&& one == match rank {
                Some(rank) => (preferred_keys(role).len() - rank) * 16 + (15 - priority),
                None => 15 - priority,
            }
        };
    let (second, later) = choose|rank: Option<usize>, priority: int|
        {
            &&& #[trigger] is_affinity(role, keys, rank)
            &&& #[trigger] is_priority(keys, priority)
            &&& other == match rank {
                Some(rank) => (preferred_keys(role).len() - rank) * 16 + (15 - priority),
                None => 15 - priority,
            }
        };
    lemma_one_affinity(role, keys, rank, second);
    lemma_one_priority(keys, priority, later);
}

proof fn lemma_one_source_key(
    role: SemanticRole,
    source: EvidenceColor,
    one: Seq<i64>,
    other: Seq<i64>,
)
    requires
        is_source_key(role, source, one),
        is_source_key(role, source, other),
    ensures
        one == other,
{
    let keys = slice_views(source.keys@);
    let falling = (-1 - source.chroma.place()) as i64;
    let (rank, priority) = choose|rank: Option<usize>, priority: int|
        {
            &&& #[trigger] is_affinity(role, keys, rank)
            &&& #[trigger] is_priority(keys, priority)
            &&& one == match rank {
                Some(rank) => seq![0, rank as i64, priority as i64, falling],
                None => seq![1, falling, priority as i64, falling],
            }
        };
    let (second, later) = choose|rank: Option<usize>, priority: int|
        {
            &&& #[trigger] is_affinity(role, keys, rank)
            &&& #[trigger] is_priority(keys, priority)
            &&& other == match rank {
                Some(rank) => seq![0, rank as i64, priority as i64, falling],
                None => seq![1, falling, priority as i64, falling],
            }
        };
    lemma_one_affinity(role, keys, rank, second);
    lemma_one_priority(keys, priority, later);
}

proof fn lemma_one_ranking(
    role: SemanticRole,
    evidence: Seq<EvidenceColor>,
    one: Seq<usize>,
    other: Seq<usize>,
)
    requires
        ranks_sources(role, evidence, one),
        ranks_sources(role, evidence, other),
    ensures
        one == other,
{
    let first = choose|keys: Seq<Seq<i64>>|
        {
            &&& keys.len() == evidence.len()
            &&& forall|i: int|
                0 <= i < evidence.len() ==> is_source_key(role, evidence[i], #[trigger] keys[i])
            &&& #[trigger] is_stable_order(keys, one)
        };
    let second = choose|keys: Seq<Seq<i64>>|
        {
            &&& keys.len() == evidence.len()
            &&& forall|i: int|
                0 <= i < evidence.len() ==> is_source_key(role, evidence[i], #[trigger] keys[i])
            &&& #[trigger] is_stable_order(keys, other)
        };
    assert forall|i: int| 0 <= i < evidence.len() implies first[i] == second[i] by {
        assert(is_source_key(role, evidence[i], first[i]));
        assert(is_source_key(role, evidence[i], second[i]));
        lemma_one_source_key(role, evidence[i], first[i], second[i]);
    }
    assert(first =~= second);
    lemma_stable_order_unique(first, one, other);
}

proof fn lemma_one_root_list(
    role: SemanticRole,
    evidence: Seq<EvidenceColor>,
    one: Seq<Option<usize>>,
    other: Seq<Option<usize>>,
)
    requires
        lists_roots(role, evidence, one),
        lists_roots(role, evidence, other),
    ensures
        one == other,
{
    let first = choose|sources: Seq<usize>|
        {
            &&& #[trigger] ranks_sources(role, evidence, sources)
            &&& one == sources.map_values(|source: usize| Some(source)).push(None)
        };
    let second = choose|sources: Seq<usize>|
        {
            &&& #[trigger] ranks_sources(role, evidence, sources)
            &&& other == sources.map_values(|source: usize| Some(source)).push(None)
        };
    lemma_one_ranking(role, evidence, first, second);
}

proof fn lemma_one_cluster(
    profile: SyntaxProfile,
    source: usize,
    one: Option<usize>,
    other: Option<usize>,
)
    requires
        is_cluster_of(profile, source, one),
        is_cluster_of(profile, source, other),
    ensures
        one == other,
{
    if let Some(cluster) = one {
        let held = profile.clusters@[cluster as int];
    }
    if let Some(cluster) = other {
        let held = profile.clusters@[cluster as int];
    }
}

/// Two descriptions of the same families lead to the same selection, whether it is found
/// by pruning or not.
pub proof fn lemma_selection_is_determined(
    hierarchy: MergePlan,
    profile: SyntaxProfile,
    facts: FamilyFacts,
    one: SemanticForest,
    other: SemanticForest,
)
    requires
        one.wf(),
        other.wf(),
        facts.covers(hierarchy.families@.len(), profile.evidence@.len()),
        describes(one, hierarchy, profile, facts),
        describes(other, hierarchy, profile, facts),
    ensures
        one.explored(0, Seq::empty(), Seq::empty()) == other.explored(
            0,
            Seq::empty(),
            Seq::empty(),
        ),
{
    let families = hierarchy.families@;
    let evidence = profile.evidence@;
    assert(one.parents@ =~= other.parents@);
    assert forall|s: int| 0 <= s < evidence.len() implies one.clusters@[s] == other.clusters@[s] by {
        lemma_one_cluster(profile, s as usize, one.clusters@[s], other.clusters@[s]);
    }
    assert(one.clusters@ =~= other.clusters@);
    assert forall|f: int| 0 <= f < one.count() implies (#[trigger] one.preferences@[f])@
        == other.preferences@[f]@ by {
        let left = one.preferences@[f]@;
        let right = other.preferences@[f]@;
        assert(other.preferences@[f]@.len() == other.sources());
        assert forall|s: int| 0 <= s < left.len() implies left[s] == right[s] by {
            assert(is_preference_value(
                families[f].source_preference,
                evidence[s],
                one.preferences@[f]@[s] as int,
            ));
            assert(is_preference_value(
                families[f].source_preference,
                evidence[s],
                other.preferences@[f]@[s] as int,
            ));
            lemma_one_preference(
                families[f].source_preference,
                evidence[s],
                left[s] as int,
                right[s] as int,
            );
        }
        assert(left =~= right);
    }
    assert forall|f: int| 0 <= f < one.count() implies (#[trigger] one.roots@[f])@
        == other.roots@[f]@ by {
        assert(lists_roots(families[f].source_preference, evidence, other.roots@[f]@));
        lemma_one_root_list(
            families[f].source_preference,
            evidence,
            one.roots@[f]@,
            other.roots@[f]@,
        );
    }
    assert forall|f: int| 0 <= f < one.count() implies (#[trigger] one.viable@[f])@
        == other.viable@[f]@ by {
        assert(other.viable@[f]@.len() == other.sources() + 1);
        assert forall|slot: int| 0 <= slot < one.viable@[f]@.len() implies one.viable@[f]@[slot]
            == other.viable@[f]@[slot] by {}
        assert(one.viable@[f]@ =~= other.viable@[f]@);
    }
    assert forall|c: int| 0 <= c < one.separated@.len() implies (#[trigger] one.separated@[c])@
        == other.separated@[c]@ by {
        assert(other.separated@[c]@.len() == other.separated@.len());
        assert forall|d: int| 0 <= d < one.separated@[c]@.len() implies one.separated@[c]@[d]
            == other.separated@[c]@[d] by {}
        assert(one.separated@[c]@ =~= other.separated@[c]@);
    }
    one.lemma_same_facts_same_selection(&other);
}

/// What was measured determines the families, their sources and their colors.
pub proof fn lemma_plan_is_determined(
    hierarchy: MergePlan,
    profile: SyntaxProfile,
    facts: FamilyFacts,
    one: SemanticForest,
    other: SemanticForest,
    first: SemanticPlan,
    second: SemanticPlan,
)
    requires
        one.wf(),
        other.wf(),
        facts.covers(hierarchy.families@.len(), profile.evidence@.len()),
        describes(one, hierarchy, profile, facts),
        describes(other, hierarchy, profile, facts),
        realizes(first, hierarchy, facts, one.explored(0, Seq::empty(), Seq::empty())),
        realizes(second, hierarchy, facts, other.explored(0, Seq::empty(), Seq::empty())),
    ensures
        first.plan.views() == second.plan.views(),
        first.allocations@.len() == second.allocations@.len(),
        forall|k: int|
            0 <= k < first.allocations@.len() ==> {
                let left = #[trigger] first.allocations@[k];
                let right = second.allocations@[k];
                &&& left.family == right.family
                &&& left.source == right.source
                &&& left.output@ == right.output@
                &&& left.measured_saliency == right.measured_saliency
            },
{
    lemma_selection_is_determined(hierarchy, profile, facts, one, other);
    assert forall|k: int| 0 <= k < first.allocations@.len() implies {
        let left = #[trigger] first.allocations@[k];
        let right = second.allocations@[k];
        &&& left.family == right.family
        &&& left.source == right.source
        &&& left.output@ == right.output@
        &&& left.measured_saliency == right.measured_saliency
    } by {
        let right = second.allocations@[k];
    }
}

} // verus!
