//! Stable semantic syntax roles and the refinement forest over them.

use std::collections::BTreeSet;
use vstd::prelude::*;

verus! {

/// The meaning a syntax capture is colored by.
#[derive(Clone, Copy, Debug, PartialEq, Eq, Structural, PartialOrd, Ord, Hash)]
pub enum SemanticRole {
    Base,
    Subdued,
    Predictive,
    Callable,
    Type,
    Member,
    Control,
    Value,
    String,
    Metadata,
    Link,
    DiffChange,
    DiffAdd,
    DiffDelete,
}

/// How strongly a role stands out from the canvas.
#[derive(Clone, Copy, Debug, PartialEq, Eq, Structural, PartialOrd, Ord, Hash)]
pub enum ToneBand {
    Primary,
    Secondary,
    Subdued,
}

impl ToneBand {
    pub open spec fn name(self) -> Seq<char> {
        match self {
            ToneBand::Primary => "primary"@,
            ToneBand::Secondary => "secondary"@,
            ToneBand::Subdued => "subdued"@,
        }
    }

    pub fn as_str(self) -> (name: &'static str)
        ensures
            name@ == self.name(),
    {
        match self {
            ToneBand::Primary => "primary",
            ToneBand::Secondary => "secondary",
            ToneBand::Subdued => "subdued",
        }
    }

    pub open spec fn saliency_view(self) -> u16 {
        match self {
            ToneBand::Primary => 900,
            ToneBand::Secondary => 750,
            ToneBand::Subdued => 550,
        }
    }

    pub open spec fn single_hue_saliency_view(self) -> u16 {
        match self {
            ToneBand::Primary => 1000,
            ToneBand::Secondary => 650,
            ToneBand::Subdued => 400,
        }
    }

    /// The share of the reference contrast this band aims at, in thousandths.
    pub fn saliency(self) -> (thousandths: u16)
        ensures
            thousandths == self.saliency_view(),
    {
        match self {
            ToneBand::Primary => 900,
            ToneBand::Secondary => 750,
            ToneBand::Subdued => 550,
        }
    }

    /// The share aimed at when a palette offers a single hue, in thousandths.
    pub fn single_hue_saliency(self) -> (thousandths: u16)
        ensures
            thousandths == self.single_hue_saliency_view(),
    {
        match self {
            ToneBand::Primary => 1000,
            ToneBand::Secondary => 650,
            ToneBand::Subdued => 400,
        }
    }
}

impl SemanticRole {
    pub open spec fn name(self) -> Seq<char> {
        match self {
            SemanticRole::Base => "base"@,
            SemanticRole::Subdued => "subdued"@,
            SemanticRole::Predictive => "predictive"@,
            SemanticRole::Callable => "callable"@,
            SemanticRole::Type => "type"@,
            SemanticRole::Member => "member"@,
            SemanticRole::Control => "control"@,
            SemanticRole::Value => "value"@,
            SemanticRole::String => "string"@,
            SemanticRole::Metadata => "metadata"@,
            SemanticRole::Link => "link"@,
            SemanticRole::DiffChange => "diff_change"@,
            SemanticRole::DiffAdd => "diff_add"@,
            SemanticRole::DiffDelete => "diff_delete"@,
        }
    }

    pub fn as_str(self) -> (name: &'static str)
        ensures
            name@ == self.name(),
    {
        match self {
            SemanticRole::Base => "base",
            SemanticRole::Subdued => "subdued",
            SemanticRole::Predictive => "predictive",
            SemanticRole::Callable => "callable",
            SemanticRole::Type => "type",
            SemanticRole::Member => "member",
            SemanticRole::Control => "control",
            SemanticRole::Value => "value",
            SemanticRole::String => "string",
            SemanticRole::Metadata => "metadata",
            SemanticRole::Link => "link",
            SemanticRole::DiffChange => "diff_change",
            SemanticRole::DiffAdd => "diff_add",
            SemanticRole::DiffDelete => "diff_delete",
        }
    }

    pub open spec fn is_diff(self) -> bool {
        self == SemanticRole::DiffChange || self == SemanticRole::DiffAdd || self
            == SemanticRole::DiffDelete
    }

    pub open spec fn tone_band_view(self) -> ToneBand {
        match self {
            SemanticRole::String | SemanticRole::Link => ToneBand::Secondary,
            SemanticRole::Metadata
            | SemanticRole::Subdued
            | SemanticRole::Predictive => ToneBand::Subdued,
            _ => ToneBand::Primary,
        }
    }

    pub fn tone_band(self) -> (band: ToneBand)
        ensures
            band == self.tone_band_view(),
    {
        match self {
            SemanticRole::Base
            | SemanticRole::Callable
            | SemanticRole::Type
            | SemanticRole::Member
            | SemanticRole::Control
            | SemanticRole::Value
            | SemanticRole::DiffChange
            | SemanticRole::DiffAdd
            | SemanticRole::DiffDelete => ToneBand::Primary,
            SemanticRole::String | SemanticRole::Link => ToneBand::Secondary,
            SemanticRole::Metadata
            | SemanticRole::Subdued
            | SemanticRole::Predictive => ToneBand::Subdued,
        }
    }

    /// The share of the reference contrast this role aims at, in thousandths.
    pub fn saliency(self) -> (thousandths: u16)
        ensures
            thousandths == if self == SemanticRole::Base || self.is_diff() {
                1000
            } else {
                self.tone_band_view().saliency_view()
            },
    {
        match self {
            SemanticRole::Base
            | SemanticRole::DiffChange
            | SemanticRole::DiffAdd
            | SemanticRole::DiffDelete => 1000,
            _ => self.tone_band().saliency(),
        }
    }
}

/// The roles that ordinary families can color.
pub const ORDINARY_ROLES: [SemanticRole; 8] = [
    SemanticRole::Callable,
    SemanticRole::Type,
    SemanticRole::Member,
    SemanticRole::Control,
    SemanticRole::Value,
    SemanticRole::String,
    SemanticRole::Metadata,
    SemanticRole::Link,
];

pub const MAX_SEMANTIC_BUDGET: usize = 6;

/// One color shared by a group of roles. Saliencies are in thousandths.
#[derive(Clone, Debug)]
pub struct Family {
    pub name: &'static str,
    pub anchor: SemanticRole,
    pub source_preference: SemanticRole,
    pub roles: Vec<SemanticRole>,
    pub parent: Option<usize>,
    pub fallback_saliency: u16,
    pub parent_saliency_delta: u16,
}

/// What a [`Family`] holds.
pub struct FamilyView {
    pub name: Seq<char>,
    pub anchor: SemanticRole,
    pub source_preference: SemanticRole,
    pub roles: Seq<SemanticRole>,
    pub parent: Option<usize>,
    pub fallback_saliency: u16,
    pub parent_saliency_delta: u16,
}

impl View for Family {
    type V = FamilyView;

    open spec fn view(&self) -> FamilyView {
        FamilyView {
            name: self.name@,
            anchor: self.anchor,
            source_preference: self.source_preference,
            roles: self.roles@,
            parent: self.parent,
            fallback_saliency: self.fallback_saliency,
            parent_saliency_delta: self.parent_saliency_delta,
        }
    }
}

/// The families in use, trunks before their branches.
#[derive(Clone, Debug)]
pub struct MergePlan {
    pub budget: usize,
    pub families: Vec<Family>,
}

/// A family that colors its anchor alone.
pub open spec fn single(
    name: Seq<char>,
    anchor: SemanticRole,
    source_preference: SemanticRole,
    parent: Option<usize>,
    fallback_saliency: u16,
    parent_saliency_delta: u16,
) -> FamilyView {
    FamilyView {
        name,
        anchor,
        source_preference,
        roles: seq![anchor],
        parent,
        fallback_saliency,
        parent_saliency_delta,
    }
}

/// The refinement forest that a number of hues supports: the data, symbol and
/// control trunks as far as there are hues, then the branches of those trunks.
pub open spec fn forest_families(hues: int) -> Seq<FamilyView> {
    let data = single("data"@, SemanticRole::String, SemanticRole::String, None, 780, 0);
    let symbol = single("symbol"@, SemanticRole::Type, SemanticRole::Callable, None, 900, 0);
    let control = single("control"@, SemanticRole::Control, SemanticRole::Control, None, 900, 0);
    let value = single("value"@, SemanticRole::Value, SemanticRole::Value, Some(0), 900, 120);
    let runtime = single(
        "runtime_symbol"@,
        SemanticRole::Callable,
        SemanticRole::Callable,
        Some(1),
        780,
        120,
    );
    let member = |parent: usize|
        single("member"@, SemanticRole::Member, SemanticRole::Member, Some(parent), 680, 100);
    if hues <= 1 {
        seq![data, value]
    } else if hues == 2 {
        seq![data, symbol, value, runtime, member(3)]
    } else {
        seq![data, symbol, control, value, runtime, member(4)]
    }
}

/// What a vector of families holds.
pub open spec fn family_views(families: Seq<Family>) -> Seq<FamilyView> {
    families.map_values(|family: Family| family@)
}

/// Whether every parent stands before its branch.
pub open spec fn parents_precede(families: Seq<FamilyView>) -> bool {
    forall|i: int|
        0 <= i < families.len() ==> ((#[trigger] families[i]).parent matches Some(parent)
            ==> parent < i)
}

fn family(
    name: &'static str,
    anchor: SemanticRole,
    source_preference: SemanticRole,
    parent: Option<usize>,
    fallback_saliency: u16,
    parent_saliency_delta: u16,
) -> (family: Family)
    ensures
        family@ == single(
            name@,
            anchor,
            source_preference,
            parent,
            fallback_saliency,
            parent_saliency_delta,
        ),
{
    let mut roles: Vec<SemanticRole> = Vec::new();
    roles.push(anchor);
    assert(roles@ =~= seq![anchor]);
    Family {
        name,
        anchor,
        source_preference,
        roles,
        parent,
        fallback_saliency,
        parent_saliency_delta,
    }
}

/// The positions below `count` that `active` holds, ascending.
pub open spec fn active_positions(active: Set<usize>, count: nat) -> Seq<int>
    decreases count,
{
    if count == 0 {
        Seq::empty()
    } else {
        let earlier = active_positions(active, (count - 1) as nat);
        if active.contains((count - 1) as usize) {
            earlier.push(count - 1)
        } else {
            earlier
        }
    }
}

/// Whether an active family has the given anchor.
pub open spec fn anchor_active(
    families: Seq<FamilyView>,
    active: Set<usize>,
    anchor: SemanticRole,
) -> bool {
    exists|i: int|
        0 <= i < families.len() && active.contains(i as usize) && (#[trigger] families[i]).anchor
            == anchor
}

/// Where the family at `position` stands among the active ones.
pub open spec fn remapped(active: Set<usize>, position: int) -> Option<usize> {
    if active.contains(position as usize) {
        Some(active_positions(active, position as nat).len() as usize)
    } else {
        None
    }
}

/// A family as it stands in the plan of its active forest: it takes over the
/// roles of the refinements that are not active.
pub open spec fn activated(families: Seq<FamilyView>, active: Set<usize>, position: int) -> FamilyView {
    let family = families[position];
    let parent = match family.parent {
        Some(parent) if parent < families.len() => remapped(active, parent as int),
        _ => None,
    };
    let named = FamilyView { parent, ..family };
    match family.anchor {
        SemanticRole::String => if !anchor_active(families, active, SemanticRole::Value) {
            FamilyView { name: "data"@, roles: named.roles.push(SemanticRole::Value), ..named }
        } else {
            FamilyView { name: "string"@, ..named }
        },
        SemanticRole::Type => if !anchor_active(families, active, SemanticRole::Callable) {
            FamilyView {
                name: "symbol"@,
                roles: named.roles.push(SemanticRole::Callable).push(SemanticRole::Member),
                ..named
            }
        } else {
            FamilyView { name: "type"@, ..named }
        },
        SemanticRole::Callable => if !anchor_active(families, active, SemanticRole::Member) {
            FamilyView {
                name: "runtime_symbol"@,
                roles: named.roles.push(SemanticRole::Member),
                ..named
            }
        } else {
            FamilyView { name: "callable"@, ..named }
        },
        _ => named,
    }
}

/// The families of the plan that activates part of a forest.
pub open spec fn activated_families(families: Seq<FamilyView>, active: Set<usize>) -> Seq<FamilyView> {
    active_positions(active, families.len()).map_values(
        |position: int| activated(families, active, position),
    )
}

/// The first family that colors `role`.
pub open spec fn is_family_for(families: Seq<FamilyView>, role: SemanticRole, found: Option<usize>) -> bool {
    match found {
        Some(index) => {
            &&& index < families.len()
            &&& families[index as int].roles.contains(role)
            &&& forall|i: int| 0 <= i < index ==> !(#[trigger] families[i]).roles.contains(role)
        },
        None => forall|i: int|
            0 <= i < families.len() ==> !(#[trigger] families[i]).roles.contains(role),
    }
}

impl MergePlan {
    pub open spec fn views(&self) -> Seq<FamilyView> {
        family_views(self.families@)
    }

    /// The refinement forest for a number of hues, which counts as one to three.
    pub fn hierarchy(hue_budget: usize) -> (plan: Self)
        ensures
            plan.views() == forest_families(hue_budget as int),
            plan.budget == plan.families@.len(),
            parents_precede(plan.views()),
            plan.families@.len() <= MAX_SEMANTIC_BUDGET,
    {
        let mut families: Vec<Family> = Vec::new();
        families.push(family("data", SemanticRole::String, SemanticRole::String, None, 780, 0));
        if hue_budget >= 2 {
            families.push(
                family("symbol", SemanticRole::Type, SemanticRole::Callable, None, 900, 0),
            );
        }
        if hue_budget >= 3 {
            families.push(
                family("control", SemanticRole::Control, SemanticRole::Control, None, 900, 0),
            );
        }
        families.push(
            family("value", SemanticRole::Value, SemanticRole::Value, Some(0), 900, 120),
        );
        if hue_budget >= 2 {
            let runtime = families.len();
            families.push(
                family(
                    "runtime_symbol",
                    SemanticRole::Callable,
                    SemanticRole::Callable,
                    Some(1),
                    780,
                    120,
                ),
            );
            families.push(
                family("member", SemanticRole::Member, SemanticRole::Member, Some(runtime), 680, 100),
            );
        }
        assert(family_views(families@) =~= forest_families(hue_budget as int));
        MergePlan { budget: families.len(), families }
    }

    fn has_active_anchor(&self, active: &BTreeSet<usize>, anchor: SemanticRole) -> (found: bool)
        ensures
            found == anchor_active(self.views(), active@, anchor),
    {
        let mut index: usize = 0;
        while index < self.families.len()
            invariant
                index <= self.families@.len(),
                forall|i: int|
                    0 <= i < index ==> !(active@.contains(i as usize) && (
                    #[trigger] self.views()[i]).anchor == anchor),
            decreases self.families@.len() - index,
        {
            assert(self.views()[index as int].anchor == self.families@[index as int].anchor);
            if active.contains(&index) && self.families[index].anchor == anchor {
                assert(active@.contains(index as int as usize));
                return true;
            }
            index += 1;
        }
        false
    }

    fn active_before(&self, active: &BTreeSet<usize>, end: usize) -> (count: usize)
        ensures
            count == active_positions(active@, end as nat).len(),
            count <= end,
    {
        let mut count: usize = 0;
        let mut index: usize = 0;
        while index < end
            invariant
                index <= end,
                count <= index,
                count == active_positions(active@, index as nat).len(),
            decreases end - index,
        {
            if active.contains(&index) {
                count += 1;
            }
            index += 1;
        }
        count
    }

    /// The plan that keeps the families in `active`. Each kept family takes over
    /// the roles of its refinements that are not kept.
    pub fn activate(&self, active: &BTreeSet<usize>) -> (plan: Self)
        ensures
            plan.views() == activated_families(self.views(), active@),
            plan.budget == plan.families@.len(),
    {
        let value_active = self.has_active_anchor(active, SemanticRole::Value);
        let callable_active = self.has_active_anchor(active, SemanticRole::Callable);
        let member_active = self.has_active_anchor(active, SemanticRole::Member);
        let ghost views = self.views();
        let mut families: Vec<Family> = Vec::new();
        let mut index: usize = 0;
        while index < self.families.len()
            invariant
                index <= self.families@.len(),
                views == self.views(),
                value_active == anchor_active(views, active@, SemanticRole::Value),
                callable_active == anchor_active(views, active@, SemanticRole::Callable),
                member_active == anchor_active(views, active@, SemanticRole::Member),
                family_views(families@) == active_positions(active@, index as nat).map_values(
                    |position: int| activated(views, active@, position),
                ),
            decreases self.families@.len() - index,
        {
            if active.contains(&index) {
                let ghost so_far = family_views(families@);
                let old = &self.families[index];
                assert(views[index as int] == old@);
                let parent = match old.parent {
                    Some(parent) => if parent < self.families.len() && active.contains(&parent) {
                        Some(self.active_before(active, parent))
                    } else {
                        None
                    },
                    None => None,
                };
                let mut name = old.name;
                let mut roles: Vec<SemanticRole> = Vec::new();
                let mut copied: usize = 0;
                while copied < old.roles.len()
                    invariant
                        copied <= old.roles@.len(),
                        roles@ == old.roles@.subrange(0, copied as int),
                    decreases old.roles@.len() - copied,
                {
                    roles.push(old.roles[copied]);
                    copied += 1;
                    assert(roles@ =~= old.roles@.subrange(0, copied as int));
                }
                assert(roles@ =~= old.roles@);
                match old.anchor {
                    SemanticRole::String => {
                        if value_active {
                            name = "string";
                        } else {
                            name = "data";
                            roles.push(SemanticRole::Value);
                        }
                    },
                    SemanticRole::Type => {
                        if callable_active {
                            name = "type";
                        } else {
                            name = "symbol";
                            roles.push(SemanticRole::Callable);
                            roles.push(SemanticRole::Member);
                        }
                    },
                    SemanticRole::Callable => {
                        if member_active {
                            name = "callable";
                        } else {
                            name = "runtime_symbol";
                            roles.push(SemanticRole::Member);
                        }
                    },
                    _ => {},
                }
                families.push(
                    Family {
                        name,
                        anchor: old.anchor,
                        source_preference: old.source_preference,
                        roles,
                        parent,
                        fallback_saliency: old.fallback_saliency,
                        parent_saliency_delta: old.parent_saliency_delta,
                    },
                );
                assert(family_views(families@) =~= so_far.push(
                    activated(views, active@, index as int),
                ));
            }
            index += 1;
            assert(family_views(families@) =~= active_positions(active@, index as nat).map_values(
                |position: int| activated(views, active@, position),
            ));
        }
        MergePlan { budget: families.len(), families }
    }

    /// The plan of the first `budget` families of the full forest.
    pub fn with_budget(budget: usize) -> (plan: Self)
        ensures
            plan.views() == activated_families(
                forest_families(3),
                Set::new(|index: usize| index < budget && index < 6),
            ),
            plan.budget == plan.families@.len(),
    {
        let hierarchy = MergePlan::hierarchy(3);
        let mut active: BTreeSet<usize> = BTreeSet::new();
        let mut index: usize = 0;
        while index < budget && index < 6
            invariant
                index <= budget,
                index <= 6,
                active@ == Set::new(|other: usize| other < index),
            decreases 6 - index,
        {
            active.insert(index);
            index += 1;
            assert(active@ =~= Set::new(|other: usize| other < index));
        }
        assert(active@ =~= Set::new(|other: usize| other < budget && other < 6));
        hierarchy.activate(&active)
    }

    /// The first family that colors `role`.
    pub fn family_for(&self, role: SemanticRole) -> (found: Option<usize>)
        ensures
            is_family_for(self.views(), role, found),
    {
        let mut index: usize = 0;
        while index < self.families.len()
            invariant
                index <= self.families@.len(),
                forall|i: int| 0 <= i < index ==> !(#[trigger] self.views()[i]).roles.contains(role),
            decreases self.families@.len() - index,
        {
            assert(self.views()[index as int].roles == self.families@[index as int].roles@);
            let roles = &self.families[index].roles;
            let mut at: usize = 0;
            while at < roles.len()
                invariant
                    at <= roles@.len(),
                    index < self.families@.len(),
                    roles@ == self.views()[index as int].roles,
                    forall|i: int| 0 <= i < index ==> !(#[trigger] self.views()[i]).roles.contains(
                        role,
                    ),
                    forall|i: int| 0 <= i < at ==> roles@[i] != role,
                decreases roles@.len() - at,
            {
                if roles[at] == role {
                    assert(roles@.contains(role));
                    return Some(index);
                }
                at += 1;
            }
            index += 1;
        }
        None
    }

    /// The role whose color stands in for a role without a family.
    pub fn fallback_for(&self, role: SemanticRole) -> (fallback: SemanticRole)
        ensures
            fallback == if role == SemanticRole::Metadata {
                SemanticRole::Subdued
            } else {
                SemanticRole::Base
            },
    {
        if role == SemanticRole::Metadata {
            SemanticRole::Subdued
        } else {
            SemanticRole::Base
        }
    }
}

/// Whether every active family's parent is active too.
pub open spec fn parent_closed(families: Seq<FamilyView>, active: Set<usize>) -> bool {
    forall|i: int|
        0 <= i < families.len() && active.contains(i as usize) ==> ((#[trigger] families[i]).parent
            matches Some(parent) ==> active.contains(parent))
}

/// Whether the active family at `position` colors `role`.
spec fn colors(families: Seq<FamilyView>, active: Set<usize>, position: int, role: SemanticRole) -> bool {
    let anchor = families[position].anchor;
    ||| role == anchor
    ||| anchor == SemanticRole::String && role == SemanticRole::Value && !anchor_active(
        families,
        active,
        SemanticRole::Value,
    )
    ||| anchor == SemanticRole::Type && (role == SemanticRole::Callable || role
        == SemanticRole::Member) && !anchor_active(families, active, SemanticRole::Callable)
    ||| anchor == SemanticRole::Callable && role == SemanticRole::Member && !anchor_active(
        families,
        active,
        SemanticRole::Member,
    )
}

proof fn lemma_colors(hues: int, active: Set<usize>, position: int, role: SemanticRole)
    requires
        0 <= position < forest_families(hues).len(),
    ensures
        activated(forest_families(hues), active, position).roles.contains(role) <==> colors(
            forest_families(hues),
            active,
            position,
            role,
        ),
{
    let families = forest_families(hues);
    let roles = activated(families, active, position).roles;
    let anchor = families[position].anchor;
    assert(families[position].roles =~= seq![anchor]);
    assert(roles[0] == anchor);
    if colors(families, active, position, role) {
        if role == anchor {
            assert(roles[0] == role);
        } else if role == SemanticRole::Member && anchor == SemanticRole::Type {
            assert(roles[2] == role);
        } else {
            assert(roles[1] == role);
        }
    }
}

/// The active positions ascend, and are exactly those that are active.
pub proof fn lemma_active_positions(active: Set<usize>, count: nat)
    requires
        count <= usize::MAX,
    ensures
        forall|i: int|
            0 <= i < active_positions(active, count).len() ==> 0 <= #[trigger] active_positions(
                active,
                count,
            )[i] < count && active.contains(active_positions(active, count)[i] as usize),
        forall|i: int, j: int|
            0 <= i < j < active_positions(active, count).len() ==> #[trigger] active_positions(
                active,
                count,
            )[i] < #[trigger] active_positions(active, count)[j],
    decreases count,
{
    if count > 0 {
        lemma_active_positions(active, (count - 1) as nat);
        let earlier = active_positions(active, (count - 1) as nat);
        let now = active_positions(active, count);
        assert(forall|i: int| 0 <= i < earlier.len() ==> #[trigger] now[i] == earlier[i]);
        assert forall|i: int| 0 <= i < now.len() implies 0 <= #[trigger] now[i] < count
            && active.contains(now[i] as usize) by {
            if i < earlier.len() {
                assert(now[i] == earlier[i]);
            }
        }
        assert forall|i: int, j: int| 0 <= i < j < now.len() implies #[trigger] now[i]
            < #[trigger] now[j] by {
            assert(now[i] == earlier[i]);
            if j < earlier.len() {
                assert(now[j] == earlier[j]);
            }
        }
    }
}

proof fn lemma_roles_disjoint(
    hues: int,
    active: Set<usize>,
    left: int,
    right: int,
    role: SemanticRole,
)
    requires
        parent_closed(forest_families(hues), active),
        0 <= left < right < forest_families(hues).len(),
        active.contains(left as usize),
        active.contains(right as usize),
    ensures
        !(colors(forest_families(hues), active, left, role) && colors(
            forest_families(hues),
            active,
            right,
            role,
        )),
{
    let families = forest_families(hues);
    assert(families[left].anchor != families[right].anchor);
    assert(anchor_active(families, active, families[left].anchor));
    assert(anchor_active(families, active, families[right].anchor));
    if families[right].anchor == SemanticRole::Member {
        let parent = families[right].parent->0;
        assert(active.contains(parent));
        assert(families[parent as int].anchor == SemanticRole::Callable);
        assert(anchor_active(families, active, SemanticRole::Callable));
    }
}

/// No role is colored by two families of a plan, whichever families are active
/// together with their parents.
pub proof fn lemma_plan_colors_each_role_once(
    hues: int,
    active: Set<usize>,
    left: int,
    right: int,
    role: SemanticRole,
)
    requires
        parent_closed(forest_families(hues), active),
        0 <= left < right < activated_families(forest_families(hues), active).len(),
    ensures
        !(activated_families(forest_families(hues), active)[left].roles.contains(role)
            && activated_families(forest_families(hues), active)[right].roles.contains(role)),
{
    let families = forest_families(hues);
    let positions = active_positions(active, families.len());
    lemma_active_positions(active, families.len());
    assert(positions[left] < positions[right]);
    lemma_colors(hues, active, positions[left], role);
    lemma_colors(hues, active, positions[right], role);
    lemma_roles_disjoint(hues, active, positions[left], positions[right], role);
}

proof fn lemma_colors_refine(
    hues: int,
    fewer: Set<usize>,
    more: Set<usize>,
    coarse: int,
    fine: int,
    first: SemanticRole,
    second: SemanticRole,
)
    requires
        parent_closed(forest_families(hues), fewer),
        parent_closed(forest_families(hues), more),
        fewer.subset_of(more),
        0 <= coarse < forest_families(hues).len(),
        0 <= fine < forest_families(hues).len(),
        fewer.contains(coarse as usize),
        more.contains(fine as usize),
        colors(forest_families(hues), more, fine, first),
        colors(forest_families(hues), more, fine, second),
    ensures
        colors(forest_families(hues), fewer, coarse, first) ==> colors(
            forest_families(hues),
            fewer,
            coarse,
            second,
        ),
{
    let families = forest_families(hues);
    assert forall|anchor: SemanticRole| #[trigger]
        anchor_active(families, fewer, anchor) implies anchor_active(families, more, anchor) by {
        let at = choose|i: int|
            0 <= i < families.len() && fewer.contains(i as usize) && (#[trigger] families[i]).anchor
                == anchor;
        assert(more.contains(at as usize));
    }
    assert(anchor_active(families, fewer, families[coarse].anchor));
    assert(anchor_active(families, more, families[fine].anchor));
    if families[coarse].anchor == SemanticRole::Member {
        let parent = families[coarse].parent->0;
        assert(fewer.contains(parent));
        assert(families[parent as int].anchor == SemanticRole::Callable);
        assert(anchor_active(families, fewer, SemanticRole::Callable));
    }
}

/// Activating more families only splits groups: two roles that share a family of
/// the larger plan share every family of the smaller one.
pub proof fn lemma_larger_plan_refines(
    hues: int,
    fewer: Set<usize>,
    more: Set<usize>,
    coarse: int,
    fine: int,
    first: SemanticRole,
    second: SemanticRole,
)
    requires
        parent_closed(forest_families(hues), fewer),
        parent_closed(forest_families(hues), more),
        fewer.subset_of(more),
        0 <= coarse < activated_families(forest_families(hues), fewer).len(),
        0 <= fine < activated_families(forest_families(hues), more).len(),
        activated_families(forest_families(hues), more)[fine].roles.contains(first),
        activated_families(forest_families(hues), more)[fine].roles.contains(second),
    ensures
        activated_families(forest_families(hues), fewer)[coarse].roles.contains(first)
            == activated_families(forest_families(hues), fewer)[coarse].roles.contains(second),
{
    let families = forest_families(hues);
    lemma_active_positions(fewer, families.len());
    lemma_active_positions(more, families.len());
    let coarse_position = active_positions(fewer, families.len())[coarse];
    let fine_position = active_positions(more, families.len())[fine];
    lemma_colors(hues, fewer, coarse_position, first);
    lemma_colors(hues, fewer, coarse_position, second);
    lemma_colors(hues, more, fine_position, first);
    lemma_colors(hues, more, fine_position, second);
    lemma_colors_refine(hues, fewer, more, coarse_position, fine_position, first, second);
    lemma_colors_refine(hues, fewer, more, coarse_position, fine_position, second, first);
}

/// The first families of the full forest are active together with their parents.
pub proof fn lemma_budget_is_parent_closed(budget: usize)
    ensures
        parent_closed(forest_families(3), Set::new(|index: usize| index < budget && index < 6)),
{
}

} // verus!
