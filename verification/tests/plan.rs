//! The semantic hierarchy of syntax roles.

use omarchy_zed_theme::syntax::plan::{
    MergePlan, SemanticRole, ToneBand, MAX_SEMANTIC_BUDGET, ORDINARY_ROLES,
};
use std::collections::BTreeSet;

fn names(roles: &[SemanticRole]) -> Vec<&'static str> {
    roles.iter().map(|role| role.as_str()).collect()
}

#[test]
fn plans_cover_each_active_role_once() {
    for budget in 0..=MAX_SEMANTIC_BUDGET {
        let plan = MergePlan::with_budget(budget);
        assert_eq!(plan.families.len(), budget);
        let roles = plan
            .families
            .iter()
            .flat_map(|family| names(&family.roles))
            .collect::<Vec<_>>();
        assert_eq!(
            roles.iter().copied().collect::<BTreeSet<_>>().len(),
            roles.len()
        );
    }
}

#[test]
fn increasing_budget_only_refines_semantic_groups() {
    for budget in 0..MAX_SEMANTIC_BUDGET {
        let current = MergePlan::with_budget(budget);
        let next = MergePlan::with_budget(budget + 1);
        for family in &next.families {
            let parents = family
                .roles
                .iter()
                .map(|role| current.family_for(*role))
                .collect::<BTreeSet<_>>();
            assert!(parents.len() == 1 || parents == BTreeSet::from([None]));
        }
    }
}

#[test]
fn sparse_plans_leave_routine_syntax_at_base() {
    let plan = MergePlan::with_budget(2);
    for role in [SemanticRole::Control, SemanticRole::Link] {
        assert_eq!(plan.family_for(role), None);
        assert_eq!(plan.fallback_for(role), SemanticRole::Base);
    }
    assert_eq!(
        plan.fallback_for(SemanticRole::Metadata),
        SemanticRole::Subdued
    );
    assert_eq!(plan.family_for(SemanticRole::String), Some(0));
    assert_eq!(plan.family_for(SemanticRole::Value), Some(0));
    assert_eq!(plan.family_for(SemanticRole::Callable), Some(1));
    assert_eq!(plan.family_for(SemanticRole::Type), Some(1));
    assert_eq!(plan.family_for(SemanticRole::Member), Some(1));
}

#[test]
fn data_split_preserves_the_first_family_for_strings() {
    let one = MergePlan::with_budget(1);
    let four = MergePlan::with_budget(4);
    assert_eq!(one.families[0].anchor, SemanticRole::String);
    assert_eq!(four.families[0].anchor, SemanticRole::String);
    assert!(one.families[0].roles.contains(&SemanticRole::Value));
    assert!(!four.families[0].roles.contains(&SemanticRole::Value));
    assert_eq!(four.families[3].roles, vec![SemanticRole::Value]);
}

#[test]
fn symbol_split_preserves_the_second_family_for_types() {
    let two = MergePlan::with_budget(2);
    let five = MergePlan::with_budget(5);
    assert_eq!(two.families[1].anchor, SemanticRole::Type);
    assert_eq!(five.families[1].anchor, SemanticRole::Type);
    assert!(two.families[1].roles.contains(&SemanticRole::Callable));
    assert!(!five.families[1].roles.contains(&SemanticRole::Callable));
    assert_eq!(
        five.families[4].roles,
        vec![SemanticRole::Callable, SemanticRole::Member]
    );
}

#[test]
fn one_failed_branch_does_not_remove_other_trunks_or_branches() {
    let hierarchy = MergePlan::hierarchy(3);
    let plan = hierarchy.activate(&BTreeSet::from([0, 1, 2, 4]));
    assert_eq!(plan.family_for(SemanticRole::Control), Some(2));
    assert_eq!(plan.family_for(SemanticRole::Value), Some(0));
    assert_ne!(
        plan.family_for(SemanticRole::Type),
        plan.family_for(SemanticRole::Callable)
    );
    assert_eq!(
        plan.family_for(SemanticRole::Callable),
        plan.family_for(SemanticRole::Member)
    );
}

#[test]
fn an_empty_plan_renders_no_role() {
    let plan = MergePlan::with_budget(0);
    for role in ORDINARY_ROLES {
        assert_eq!(plan.family_for(role), None);
    }
}

#[test]
fn a_hierarchy_without_hues_counts_as_one_hue() {
    let none = MergePlan::hierarchy(0);
    let one = MergePlan::hierarchy(1);
    assert_eq!(none.families.len(), one.families.len());
    let many = MergePlan::hierarchy(9);
    let three = MergePlan::hierarchy(3);
    assert_eq!(many.families.len(), three.families.len());
    assert_eq!(three.families.len(), MAX_SEMANTIC_BUDGET);
}

#[test]
fn roles_and_bands_have_stable_names() {
    assert_eq!(SemanticRole::DiffDelete.as_str(), "diff_delete");
    assert_eq!(SemanticRole::Callable.as_str(), "callable");
    assert_eq!(ToneBand::Primary.as_str(), "primary");
    assert_eq!(ToneBand::Subdued.as_str(), "subdued");
    assert_eq!(SemanticRole::Subdued.tone_band(), ToneBand::Subdued);
    assert_eq!(SemanticRole::Base.tone_band(), ToneBand::Primary);
}

#[test]
fn a_plan_reports_its_families_and_the_roles_without_one() {
    let audit = MergePlan::with_budget(2).audit();
    assert_eq!(audit.budget, 2);
    assert_eq!(
        audit.selection,
        "fixed semantic refinement forest with independent trunk and branch activation"
    );
    assert!(audit.nested);
    assert!(!audit.comments_consume_chromatic_budget);
    assert_eq!(audit.families.len(), 2);
    let data = &audit.families[0];
    assert_eq!((data.id, data.name, data.anchor), (0, "data", "string"));
    assert_eq!(data.source_preference, "string");
    assert_eq!(data.roles, ["string", "value"]);
    assert_eq!(data.parent, None);
    assert_eq!(data.fallback_saliency, 780);
    assert_eq!(data.parent_saliency_delta, 0);
    assert_eq!(data.tone_band, "secondary");
    let symbol = &audit.families[1];
    assert_eq!(symbol.roles, ["type", "callable", "member"]);
    assert_eq!(symbol.tone_band, "primary");
    let inactive = audit
        .inactive_roles
        .iter()
        .map(|inactive| (inactive.role, inactive.fallback))
        .collect::<Vec<_>>();
    assert_eq!(
        inactive,
        [
            ("control", "base"),
            ("metadata", "subdued"),
            ("link", "base")
        ]
    );
}
