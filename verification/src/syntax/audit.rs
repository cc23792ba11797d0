//! What a plan reports about itself.

use crate::syntax::plan::{Family, FamilyView, MergePlan, SemanticRole, ORDINARY_ROLES};
use vstd::prelude::*;

verus! {

/// What is reported of one family. Saliencies are in thousandths.
#[derive(Clone, Debug)]
pub struct FamilyAudit {
    pub id: usize,
    pub name: &'static str,
    pub anchor: &'static str,
    pub source_preference: &'static str,
    pub roles: Vec<&'static str>,
    pub parent: Option<usize>,
    pub fallback_saliency: u16,
    pub parent_saliency_delta: u16,
    pub tone_band: &'static str,
}

/// A role without a family, with the role whose color stands in for it.
#[derive(Clone, Copy, Debug)]
pub struct InactiveRole {
    pub role: &'static str,
    pub fallback: &'static str,
}

/// What a plan reports about itself.
#[derive(Clone, Debug)]
pub struct PlanAudit {
    pub budget: usize,
    pub selection: &'static str,
    pub families: Vec<FamilyAudit>,
    pub inactive_roles: Vec<InactiveRole>,
    pub nested: bool,
    pub comments_consume_chromatic_budget: bool,
}

/// Whether `audit` reports the family with the number `id`.
pub open spec fn reports_family(audit: FamilyAudit, family: FamilyView, id: int) -> bool {
    &&& audit.id == id
    &&& audit.name@ == family.name
    &&& audit.anchor@ == family.anchor.name()
    &&& audit.source_preference@ == family.source_preference.name()
    &&& audit.roles@.len() == family.roles.len()
    &&& forall|i: int|
        0 <= i < family.roles.len() ==> (#[trigger] audit.roles@[i])@ == family.roles[i].name()
    &&& audit.parent == family.parent
    &&& audit.fallback_saliency == family.fallback_saliency
    &&& audit.parent_saliency_delta == family.parent_saliency_delta
    &&& audit.tone_band@ == family.anchor.tone_band_view().name()
}

/// Whether a family colors the role.
pub open spec fn is_colored(families: Seq<FamilyView>, role: SemanticRole) -> bool {
    exists|i: int| 0 <= i < families.len() && (#[trigger] families[i]).roles.contains(role)
}

/// The roles that no family colors, in the order of `roles`.
pub open spec fn uncolored(families: Seq<FamilyView>, roles: Seq<SemanticRole>) -> Seq<SemanticRole>
    decreases roles.len(),
{
    if roles.len() == 0 {
        Seq::empty()
    } else if is_colored(families, roles.last()) {
        uncolored(families, roles.drop_last())
    } else {
        uncolored(families, roles.drop_last()).push(roles.last())
    }
}

/// The role whose color stands in for a role without a family.
pub open spec fn stand_in(role: SemanticRole) -> SemanticRole {
    if role == SemanticRole::Metadata {
        SemanticRole::Subdued
    } else {
        SemanticRole::Base
    }
}

/// Whether `audit` reports exactly the roles without a family.
pub open spec fn reports_inactive(audit: Seq<InactiveRole>, roles: Seq<SemanticRole>) -> bool {
    &&& audit.len() == roles.len()
    &&& forall|i: int|
        0 <= i < roles.len() ==> (#[trigger] audit[i]).role@ == roles[i].name()
            && audit[i].fallback@ == stand_in(roles[i]).name()
}

fn family_audit(family: &Family, id: usize) -> (audit: FamilyAudit)
    ensures
        reports_family(audit, family@, id as int),
{
    let mut roles: Vec<&'static str> = Vec::new();
    let mut index: usize = 0;
    while index < family.roles.len()
        invariant
            index <= family.roles@.len(),
            roles@.len() == index,
            forall|i: int|
                0 <= i < index ==> (#[trigger] roles@[i])@ == family.roles@[i].name(),
        decreases family.roles@.len() - index,
    {
        roles.push(family.roles[index].as_str());
        index += 1;
    }
    FamilyAudit {
        id,
        name: family.name,
        anchor: family.anchor.as_str(),
        source_preference: family.source_preference.as_str(),
        roles,
        parent: family.parent,
        fallback_saliency: family.fallback_saliency,
        parent_saliency_delta: family.parent_saliency_delta,
        tone_band: family.anchor.tone_band().as_str(),
    }
}

impl MergePlan {
    fn inactive_roles(&self) -> (inactive: Vec<InactiveRole>)
        ensures
            reports_inactive(inactive@, uncolored(self.views(), ORDINARY_ROLES@)),
    {
        let mut inactive: Vec<InactiveRole> = Vec::new();
        let mut index: usize = 0;
        while index < 8
            invariant
                index <= 8,
                reports_inactive(
                    inactive@,
                    uncolored(self.views(), ORDINARY_ROLES@.take(index as int)),
                ),
            decreases 8 - index,
        {
            let role = ORDINARY_ROLES[index];
            let found = self.family_for(role);
            index += 1;
            assert(ORDINARY_ROLES@.take(index as int).drop_last() =~= ORDINARY_ROLES@.take(
                index - 1,
            ));
            if found.is_none() {
                inactive.push(
                    InactiveRole { role: role.as_str(), fallback: self.fallback_for(role).as_str() },
                );
            }
        }
        assert(ORDINARY_ROLES@.take(8) =~= ORDINARY_ROLES@);
        inactive
    }

    /// What the plan reports about itself: its families in order, and the roles that
    /// none of them colors.
    pub fn audit(&self) -> (audit: PlanAudit)
        ensures
            audit.budget == self.budget,
            audit.selection@
                == "fixed semantic refinement forest with independent trunk and branch activation"@,
            audit.families@.len() == self.views().len(),
            forall|i: int|
                0 <= i < self.views().len() ==> reports_family(
                    #[trigger] audit.families@[i],
                    self.views()[i],
                    i,
                ),
            reports_inactive(audit.inactive_roles@, uncolored(self.views(), ORDINARY_ROLES@)),
            audit.nested,
            !audit.comments_consume_chromatic_budget,
    {
        let mut families: Vec<FamilyAudit> = Vec::new();
        let mut index: usize = 0;
        while index < self.families.len()
            invariant
                index <= self.families@.len(),
                families@.len() == index,
                forall|i: int|
                    0 <= i < index ==> reports_family(
                        #[trigger] families@[i],
                        self.views()[i],
                        i,
                    ),
            decreases self.families@.len() - index,
        {
            families.push(family_audit(&self.families[index], index));
            index += 1;
        }
        PlanAudit {
            budget: self.budget,
            selection: "fixed semantic refinement forest with independent trunk and branch activation",
            families,
            inactive_roles: self.inactive_roles(),
            nested: true,
            comments_consume_chromatic_budget: false,
        }
    }
}

} // verus!
