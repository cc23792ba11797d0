//! Plans deterministic syntax colors from the character of a palette.
//!
//! A fixed semantic forest decides which syntax distinctions matter. Authored
//! hues and neutral tones decide how those domains are rendered, while missing
//! chromatic lineages fall back to the foreground's tone family.

pub mod audit;
pub mod capture_laws;
pub mod forest;
pub mod forest_laws;
pub mod laws;
pub mod plan;
pub mod policy;
pub mod profile;
pub mod source_laws;

use crate::color::{is_opaque_hex, opaque_hex_message, validate_opaque_hex};
use crate::order::{is_stable_order, key_views, stable_order};
use crate::palette::ResolvedPalette;
use crate::scalar::Scalar;
use crate::syntax::forest::{Choice, SemanticForest, MAX_PREFERENCE, MAX_SOURCES};
use crate::syntax::plan::{
    activated_families, active_positions, is_family_for, parents_precede, MergePlan, SemanticRole,
};
use crate::syntax::policy::{capture_names, capture_policies, CAPTURE_ROLES};
use crate::syntax::profile::{
    evidence_keys, groups_evidence, keys_with, lists_evidence, EvidenceColor, EvidenceGroup,
    Measured, SyntaxProfile, EVIDENCE_KEYS,
};
use crate::text::{characters, decimal, decimal_of, same_text, slice_views, text_between, views};
use crate::{Error, Result};
use std::collections::BTreeSet;
use vstd::prelude::*;

verus! {

// In thousandths.
pub const ORDINARY_NORMAL_SEPARATION: u32 = 25;

pub const ORDINARY_CVD_SEPARATION: u32 = 20;

pub const MINIMUM_SEMANTIC_SALIENCY_GAP: u32 = 30;

pub const MINIMUM_AUTHORED_CHROMA_RETENTION: u32 = 600;

pub const SUBDUED_SALIENCY: u32 = 550;

/// The backgrounds that syntax colors are fitted on.
pub struct SyntaxContexts<'a> {
    /// Where syntax ordinarily stands; decides preferences.
    pub ordinary: &'a Vec<String>,
    /// Everywhere syntax can be rendered; decides feasibility.
    pub rendered: &'a Vec<String>,
}

/// The palette families a role is best colored from, best first.
pub open spec fn preferred_keys(role: SemanticRole) -> Seq<Seq<char>> {
    match role {
        SemanticRole::Callable => seq!["blue"@, "accent"@, "cyan"@, "magenta"@],
        SemanticRole::Type => seq!["yellow"@, "cyan"@, "blue"@, "accent"@, "magenta"@],
        SemanticRole::Member => seq!["cyan"@, "yellow"@, "magenta"@, "accent"@],
        SemanticRole::Control => seq!["magenta"@, "red"@, "orange"@, "accent"@],
        SemanticRole::Value => seq!["orange"@, "magenta"@, "yellow"@, "red"@, "brown"@],
        SemanticRole::String => seq!["green"@, "yellow"@, "cyan"@, "red"@, "magenta"@],
        SemanticRole::Metadata => seq!["yellow"@, "blue"@, "cyan"@, "accent"@],
        SemanticRole::Link => seq!["accent"@, "blue"@, "cyan"@, "magenta"@],
        _ => Seq::empty(),
    }
}

/// The palette families a role is best colored from, best first.
pub fn role_source_preferences(role: SemanticRole) -> (keys: Vec<&'static str>)
    ensures
        slice_views(keys@) == preferred_keys(role),
        keys@.len() <= 5,
{
    let keys = match role {
        SemanticRole::Callable => vec!["blue", "accent", "cyan", "magenta"],
        SemanticRole::Type => vec!["yellow", "cyan", "blue", "accent", "magenta"],
        SemanticRole::Member => vec!["cyan", "yellow", "magenta", "accent"],
        SemanticRole::Control => vec!["magenta", "red", "orange", "accent"],
        SemanticRole::Value => vec!["orange", "magenta", "yellow", "red", "brown"],
        SemanticRole::String => vec!["green", "yellow", "cyan", "red", "magenta"],
        SemanticRole::Metadata => vec!["yellow", "blue", "cyan", "accent"],
        SemanticRole::Link => vec!["accent", "blue", "cyan", "magenta"],
        _ => Vec::new(),
    };
    assert(slice_views(keys@) =~= preferred_keys(role));
    keys
}

/// A palette key without its brightness prefix.
pub open spec fn family_of_key(key: Seq<char>) -> Seq<char> {
    if key.len() >= 7 && key.take(7) == "bright_"@ {
        key.skip(7)
    } else {
        key
    }
}

/// A palette key without its brightness prefix.
pub fn key_family(key: &str) -> (family: String)
    ensures
        family@ == family_of_key(key@),
{
    let chars = characters(key);
    if chars.len() >= 7 {
        let prefix = text_between(&chars, 0, 7);
        assert(prefix@ =~= key@.take(7));
        if same_text(prefix.as_str(), "bright_") {
            let family = text_between(&chars, 7, chars.len());
            assert(family@ =~= key@.skip(7));
            return family;
        }
    }
    key.to_owned()
}

/// Whether one of the keys belongs to the palette family.
pub open spec fn has_family(keys: Seq<Seq<char>>, family: Seq<char>) -> bool {
    exists|i: int| 0 <= i < keys.len() && family_of_key(#[trigger] keys[i]) == family
}

/// The rank of the first preferred family among the keys.
pub open spec fn is_affinity(role: SemanticRole, keys: Seq<Seq<char>>, rank: Option<usize>) -> bool {
    match rank {
        Some(rank) => {
            &&& rank < preferred_keys(role).len()
            &&& has_family(keys, preferred_keys(role)[rank as int])
            &&& forall|i: int|
                0 <= i < rank ==> !has_family(keys, #[trigger] preferred_keys(role)[i])
        },
        None => forall|i: int|
            0 <= i < preferred_keys(role).len() ==> !has_family(
                keys,
                #[trigger] preferred_keys(role)[i],
            ),
    }
}

fn belongs_to(keys: &Vec<&'static str>, family: &str) -> (found: bool)
    ensures
        found == has_family(slice_views(keys@), family@),
{
    let ghost all = slice_views(keys@);
    let mut index: usize = 0;
    while index < keys.len()
        invariant
            all == slice_views(keys@),
            index <= keys@.len(),
            forall|i: int| 0 <= i < index ==> family_of_key(#[trigger] all[i]) != family@,
        decreases keys@.len() - index,
    {
        assert(all[index as int] == keys@[index as int]@);
        if same_text(key_family(keys[index]).as_str(), family) {
            assert(family_of_key(all[index as int]) == family@);
            return true;
        }
        index += 1;
    }
    false
}

/// How early a role prefers a source; `None` if it does not.
pub fn source_affinity(role: SemanticRole, source: &EvidenceColor) -> (rank: Option<usize>)
    ensures
        is_affinity(role, slice_views(source.keys@), rank),
{
    let preferred = role_source_preferences(role);
    let mut rank: usize = 0;
    while rank < preferred.len()
        invariant
            rank <= preferred@.len(),
            slice_views(preferred@) == preferred_keys(role),
            forall|i: int|
                0 <= i < rank ==> !has_family(
                    slice_views(source.keys@),
                    #[trigger] preferred_keys(role)[i],
                ),
        decreases preferred@.len() - rank,
    {
        assert(preferred_keys(role)[rank as int] == preferred@[rank as int]@);
        if belongs_to(&source.keys, preferred[rank]) {
            return Some(rank);
        }
        rank += 1;
    }
    None
}

/// The place of the first evidence key among the keys.
pub open spec fn is_priority(keys: Seq<Seq<char>>, priority: int) -> bool {
    &&& 0 <= priority < evidence_keys().len()
    &&& keys.contains(evidence_keys()[priority])
    &&& forall|i: int| 0 <= i < priority ==> !keys.contains(#[trigger] evidence_keys()[i])
}

/// Whether the keys hold an evidence key, as those of all evidence do.
pub open spec fn has_priority(keys: Seq<Seq<char>>) -> bool {
    exists|i: int| 0 <= i < evidence_keys().len() && keys.contains(#[trigger] evidence_keys()[i])
}

fn holds_key(keys: &Vec<&'static str>, key: &str) -> (found: bool)
    ensures
        found == slice_views(keys@).contains(key@),
{
    let ghost all = slice_views(keys@);
    let mut index: usize = 0;
    while index < keys.len()
        invariant
            all == slice_views(keys@),
            index <= keys@.len(),
            forall|i: int| 0 <= i < index ==> all[i] != key@,
        decreases keys@.len() - index,
    {
        assert(all[index as int] == keys@[index as int]@);
        if same_text(keys[index], key) {
            return true;
        }
        index += 1;
    }
    false
}

/// How early the registry of evidence keys names a source.
pub fn source_priority(source: &EvidenceColor) -> (priority: usize)
    requires
        has_priority(slice_views(source.keys@)),
    ensures
        is_priority(slice_views(source.keys@), priority as int),
        priority < 15,
{
    let ghost keys = slice_views(source.keys@);
    let mut priority: usize = 0;
    while priority < 14 && !holds_key(&source.keys, EVIDENCE_KEYS[priority])
        invariant
            keys == slice_views(source.keys@),
            has_priority(keys),
            priority <= 14,
            forall|i: int| 0 <= i < priority ==> !keys.contains(#[trigger] evidence_keys()[i]),
        decreases 14 - priority,
    {
        assert(evidence_keys()[priority as int] == EVIDENCE_KEYS@[priority as int]@);
        priority += 1;
    }
    proof {
        assert(evidence_keys()[priority as int] == EVIDENCE_KEYS@[priority as int]@);
        let at = choose|i: int|
            0 <= i < evidence_keys().len() && keys.contains(#[trigger] evidence_keys()[i]);
        if priority == 14 {
            assert(at == 14);
        }
    }
    priority
}

/// Whether every evidence color of the profile is named by the registry.
pub open spec fn evidence_named(evidence: Seq<EvidenceColor>) -> bool {
    forall|i: int| 0 <= i < evidence.len() ==> has_priority(slice_views((#[trigger] evidence[i]).keys@))
}

proof fn lemma_keys_with_are_keys(palette: ResolvedPalette, keys: Seq<Seq<char>>, value: Seq<char>)
    ensures
        forall|i: int|
            0 <= i < keys_with(palette, keys, value).len() ==> keys.contains(
                #[trigger] keys_with(palette, keys, value)[i],
            ),
    decreases keys.len(),
{
    if keys.len() > 0 {
        lemma_keys_with_are_keys(palette, keys.drop_last(), value);
        let earlier = keys_with(palette, keys.drop_last(), value);
        let found = keys_with(palette, keys, value);
        assert forall|i: int| 0 <= i < found.len() implies keys.contains(#[trigger] found[i]) by {
            if i < earlier.len() {
                assert(found[i] == earlier[i]);
                let at = choose|k: int|
                    0 <= k < keys.drop_last().len() && keys.drop_last()[k] == found[i];
                assert(keys[at] == found[i]);
            } else {
                assert(keys[keys.len() - 1] == found[i]);
            }
        }
    }
}

/// The evidence of a palette is named by the registry.
pub proof fn lemma_evidence_is_named(
    palette: ResolvedPalette,
    groups: Seq<EvidenceGroup>,
    measured: Seq<Measured>,
    order: Seq<usize>,
    evidence: Seq<EvidenceColor>,
)
    requires
        groups_evidence(palette, evidence_keys(), groups),
        lists_evidence(groups, measured, order, evidence),
        groups.len() == measured.len(),
    ensures
        evidence_named(evidence),
{
    assert forall|i: int| 0 <= i < evidence.len() implies has_priority(
        slice_views((#[trigger] evidence[i]).keys@),
    ) by {
        let from = order[i] as int;
        assert(order[i] < measured.len());
        let keys = slice_views(groups[from].keys@);
        assert(slice_views(evidence[i].keys@) == keys);
        lemma_keys_with_are_keys(palette, evidence_keys(), groups[from].value@);
        assert(keys.len() == groups[from].keys@.len());
        assert(evidence_keys().contains(keys[0]));
        let at = choose|k: int| 0 <= k < evidence_keys().len() && evidence_keys()[k] == keys[0];
        assert(keys.contains(evidence_keys()[at]));
    }
}

/// What the sources of a role are ordered by: preferred sources by rank, others by
/// falling chroma, then registry priority, then falling chroma.
pub open spec fn is_source_key(role: SemanticRole, source: EvidenceColor, key: Seq<i64>) -> bool {
    let keys = slice_views(source.keys@);
    exists|rank: Option<usize>, priority: int|
        {
            &&& #[trigger] is_affinity(role, keys, rank)
            &&& #[trigger] is_priority(keys, priority)
            &&& key == match rank {
                Some(rank) => seq![
                    0,
                    rank as i64,
                    priority as i64,
                    (-1 - source.chroma.place()) as i64,
                ],
                None => seq![
                    1,
                    (-1 - source.chroma.place()) as i64,
                    priority as i64,
                    (-1 - source.chroma.place()) as i64,
                ],
            }
        }
}

fn source_key(role: SemanticRole, source: &EvidenceColor) -> (key: Vec<i64>)
    requires
        has_priority(slice_views(source.keys@)),
    ensures
        is_source_key(role, *source, key@),
{
    let rank = source_affinity(role, source);
    let priority = source_priority(source);
    let falling: i64 = -1 - source.chroma.key();
    let mut key: Vec<i64> = Vec::new();
    match rank {
        Some(rank) => {
            key.push(0);
            key.push(rank as i64);
        },
        None => {
            key.push(1);
            key.push(falling);
        },
    }
    key.push(priority as i64);
    key.push(falling);
    proof {
        let wanted = match rank {
            Some(rank) => seq![0, rank as i64, priority as i64, falling],
            None => seq![1, falling, priority as i64, falling],
        };
        assert(key@ =~= wanted);
        assert(is_affinity(role, slice_views(source.keys@), rank));
        assert(is_priority(slice_views(source.keys@), priority as int));
    }
    key
}

/// Whether `sources` list every evidence position in the role's order; sources
/// that tie keep the order of the evidence.
pub open spec fn ranks_sources(
    role: SemanticRole,
    evidence: Seq<EvidenceColor>,
    sources: Seq<usize>,
) -> bool {
    exists|keys: Seq<Seq<i64>>|
        {
            &&& keys.len() == evidence.len()
            &&& forall|i: int|
                0 <= i < evidence.len() ==> is_source_key(role, evidence[i], #[trigger] keys[i])
            &&& #[trigger] is_stable_order(keys, sources)
        }
}

/// The evidence in the order in which a role would be colored from it.
pub fn ranked_sources(profile: &SyntaxProfile, role: SemanticRole) -> (sources: Vec<usize>)
    requires
        evidence_named(profile.evidence@),
    ensures
        ranks_sources(role, profile.evidence@, sources@),
{
    let mut keys: Vec<Vec<i64>> = Vec::new();
    let mut index: usize = 0;
    while index < profile.evidence.len()
        invariant
            evidence_named(profile.evidence@),
            index <= profile.evidence@.len(),
            keys@.len() == index,
            forall|i: int|
                0 <= i < index ==> is_source_key(
                    role,
                    profile.evidence@[i],
                    #[trigger] key_views(keys@)[i],
                ),
        decreases profile.evidence@.len() - index,
    {
        let ghost held = key_views(keys@);
        let key = source_key(role, &profile.evidence[index]);
        keys.push(key);
        assert(key_views(keys@) =~= held.push(key@));
        index += 1;
    }
    let sources = stable_order(&keys);
    assert(is_stable_order(key_views(keys@), sources@));
    sources
}

/// The sources a trunk may be colored from: every authored one in order, then the
/// foreground's own lineage.
pub open spec fn lists_roots(
    role: SemanticRole,
    evidence: Seq<EvidenceColor>,
    roots: Seq<Option<usize>>,
) -> bool {
    exists|sources: Seq<usize>|
        {
            &&& #[trigger] ranks_sources(role, evidence, sources)
            &&& roots == sources.map_values(|source: usize| Some(source)).push(None)
        }
}

/// The sources a trunk may be colored from.
pub fn root_sources(profile: &SyntaxProfile, role: SemanticRole) -> (roots: Vec<Option<usize>>)
    requires
        evidence_named(profile.evidence@),
    ensures
        lists_roots(role, profile.evidence@, roots@),
        roots@.len() == profile.evidence@.len() + 1,
        forall|i: int|
            0 <= i < roots@.len() ==> ((#[trigger] roots@[i]) matches Some(source) ==> source
                < profile.evidence@.len()),
{
    let sources = ranked_sources(profile, role);
    let mut roots: Vec<Option<usize>> = Vec::new();
    let mut index: usize = 0;
    let ghost wanted = sources@.map_values(|source: usize| Some(source));
    while index < sources.len()
        invariant
            index <= sources@.len(),
            wanted == sources@.map_values(|source: usize| Some(source)),
            roots@ == wanted.take(index as int),
        decreases sources@.len() - index,
    {
        roots.push(Some(sources[index]));
        index += 1;
        assert(roots@ =~= wanted.take(index as int));
    }
    assert(roots@ =~= wanted);
    roots.push(None);
    proof {
        assert(ranks_sources(role, profile.evidence@, sources@));
        let keys = choose|keys: Seq<Seq<i64>>|
            {
                &&& keys.len() == profile.evidence@.len()
                &&& forall|i: int|
                    0 <= i < profile.evidence@.len() ==> is_source_key(
                        role,
                        profile.evidence@[i],
                        #[trigger] keys[i],
                    )
                &&& #[trigger] is_stable_order(keys, sources@)
            };
        assert forall|i: int| 0 <= i < roots@.len() implies ((#[trigger] roots@[i]) matches Some(
            source,
        ) ==> source < profile.evidence@.len()) by {
            if i < sources@.len() {
                assert(sources@[i] < keys.len());
            }
        }
    }
    roots
}

/// The hue cluster that holds a source.
pub open spec fn is_cluster_of(profile: SyntaxProfile, source: usize, cluster: Option<usize>) -> bool {
    match cluster {
        Some(cluster) => {
            &&& cluster < profile.clusters@.len()
            &&& profile.clusters@[cluster as int].members@.contains(source)
            &&& forall|c: int|
                0 <= c < cluster ==> !(#[trigger] profile.clusters@[c]).members@.contains(source)
        },
        None => forall|c: int|
            0 <= c < profile.clusters@.len() ==> !(
            #[trigger] profile.clusters@[c]).members@.contains(source),
    }
}

/// The hue cluster that holds a source; neutral sources have none.
pub fn source_cluster(profile: &SyntaxProfile, source: usize) -> (cluster: Option<usize>)
    ensures
        is_cluster_of(*profile, source, cluster),
{
    let mut cluster: usize = 0;
    while cluster < profile.clusters.len()
        invariant
            cluster <= profile.clusters@.len(),
            forall|c: int|
                0 <= c < cluster ==> !(#[trigger] profile.clusters@[c]).members@.contains(source),
        decreases profile.clusters@.len() - cluster,
    {
        let members = &profile.clusters[cluster].members;
        let mut index: usize = 0;
        while index < members.len()
            invariant
                cluster < profile.clusters@.len(),
                members@ == profile.clusters@[cluster as int].members@,
                index <= members@.len(),
                forall|c: int|
                    0 <= c < cluster ==> !(#[trigger] profile.clusters@[c]).members@.contains(source),
                forall|i: int| 0 <= i < index ==> members@[i] != source,
            decreases members@.len() - index,
        {
            if members[index] == source {
                assert(members@[index as int] == source);
                return Some(cluster);
            }
            index += 1;
        }
        cluster += 1;
    }
    None
}

/// How well a source suits a role: preferred families first, then the registry.
pub open spec fn is_preference_value(role: SemanticRole, source: EvidenceColor, value: int) -> bool {
    let keys = slice_views(source.keys@);
    exists|rank: Option<usize>, priority: int|
        {
            &&& #[trigger] is_affinity(role, keys, rank)
            &&& #[trigger] is_priority(keys, priority)
            &&& value == match rank {
                Some(rank) => (preferred_keys(role).len() - rank) * 16 + (15 - priority),
                None => 15 - priority,
            }
        }
}

/// How well a source suits a role.
pub fn source_preference_value(role: SemanticRole, source: &EvidenceColor) -> (value: usize)
    requires
        has_priority(slice_views(source.keys@)),
    ensures
        is_preference_value(role, *source, value as int),
        value <= 95,
{
    let preferred = role_source_preferences(role);
    let rank = source_affinity(role, source);
    let priority = source_priority(source);
    assert(preferred@.len() == preferred_keys(role).len()) by {
        assert(slice_views(preferred@).len() == preferred@.len());
    }
    let affinity: usize = match rank {
        Some(rank) => preferred.len() - rank,
        None => 0,
    };
    let value = affinity * 16 + (15 - priority);
    proof {
        assert(is_affinity(role, slice_views(source.keys@), rank));
        assert(is_priority(slice_views(source.keys@), priority as int));
    }
    value
}

/// How far two colors stand apart in normal and color-deficient vision.
#[derive(Clone, Copy, Debug)]
pub struct Separation {
    pub normal: Scalar,
    pub cvd: Scalar,
}

/// The least separations that keep ordinary syntax colors apart.
#[derive(Clone, Copy, Debug)]
pub struct SeparationFloor {
    pub normal: Scalar,
    pub cvd: Scalar,
}

impl SeparationFloor {
    pub open spec fn met_by(self, separation: Separation) -> bool {
        !separation.normal.less(self.normal) && !separation.cvd.less(self.cvd)
    }

    /// Whether two colors stand apart.
    pub fn separates(self, separation: Separation) -> (apart: bool)
        ensures
            apart == self.met_by(separation),
    {
        !separation.normal.is_below(self.normal) && !separation.cvd.is_below(self.cvd)
    }
}

/// A family rendered from one source.
#[derive(Clone, Debug)]
pub struct Rendering {
    pub output: String,
    pub saliency: Scalar,
    /// The separation from each color that is fixed before the families.
    pub fixed: Vec<Separation>,
}

/// Whether a candidate stands apart from every color it was measured against.
pub open spec fn all_apart(floor: SeparationFloor, separations: Seq<Separation>) -> bool {
    forall|i: int| 0 <= i < separations.len() ==> floor.met_by(#[trigger] separations[i])
}

/// Whether a candidate stands apart from every color it was measured against.
pub fn separated_from(floor: SeparationFloor, separations: &Vec<Separation>) -> (apart: bool)
    ensures
        apart == all_apart(floor, separations@),
{
    let mut index: usize = 0;
    while index < separations.len()
        invariant
            index <= separations@.len(),
            forall|i: int| 0 <= i < index ==> floor.met_by(#[trigger] separations@[i]),
        decreases separations@.len() - index,
    {
        if !floor.separates(separations[index]) {
            assert(!floor.met_by(separations@[index as int]));
            return false;
        }
        index += 1;
    }
    true
}

/// Whether a rendering can be used: it exists, stands above the subdued tone and
/// apart from the fixed colors.
pub open spec fn is_usable(
    rendering: Option<Rendering>,
    saliency_floor: Scalar,
    floor: SeparationFloor,
) -> bool {
    rendering matches Some(rendering) && saliency_floor.at_most(rendering.saliency) && all_apart(
        floor,
        rendering.fixed@,
    )
}

/// What the selection of syntax families is made from.
pub struct FamilyFacts {
    /// The rendering of each family from each slot: slot zero without a source,
    /// slot `s + 1` from source `s`.
    pub renderings: Vec<Vec<Option<Rendering>>>,
    /// The separation of each rendering from each other, by family and slot.
    pub separations: Vec<Vec<Separation>>,
    /// The least saliency of a family.
    pub saliency_floor: Scalar,
    pub separation_floor: SeparationFloor,
}

impl FamilyFacts {
    /// Whether the tables cover every family and source.
    pub open spec fn covers(&self, families: nat, sources: nat) -> bool {
        &&& self.renderings@.len() == families
        &&& forall|f: int|
            0 <= f < families ==> (#[trigger] self.renderings@[f])@.len() == sources + 1
        &&& self.separations@.len() == families * (sources + 1)
        &&& forall|c: int|
            0 <= c < self.separations@.len() ==> (#[trigger] self.separations@[c])@.len()
                == self.separations@.len()
    }
}

/// Whether `forest` states the facts about the hierarchy and profile.
pub open spec fn describes(
    forest: SemanticForest,
    hierarchy: MergePlan,
    profile: SyntaxProfile,
    facts: FamilyFacts,
) -> bool {
    let families = hierarchy.families@;
    &&& forest.parents@.len() == families.len()
    &&& forest.clusters@.len() == profile.evidence@.len()
    &&& forall|f: int|
        0 <= f < families.len() ==> #[trigger] forest.parents@[f] == families[f].parent
    &&& forall|s: int|
        0 <= s < profile.evidence@.len() ==> is_cluster_of(
            profile,
            s as usize,
            #[trigger] forest.clusters@[s],
        )
    &&& forall|f: int, s: int|
        0 <= f < families.len() && 0 <= s < profile.evidence@.len() ==> is_preference_value(
            families[f].source_preference,
            profile.evidence@[s],
            #[trigger] forest.preferences@[f]@[s] as int,
        )
    &&& forall|f: int|
        0 <= f < families.len() ==> lists_roots(
            families[f].source_preference,
            profile.evidence@,
            (#[trigger] forest.roots@[f])@,
        )
    &&& forall|f: int, slot: int|
        0 <= f < families.len() && 0 <= slot <= profile.evidence@.len()
            ==> #[trigger] forest.viable@[f]@[slot] == is_usable(
            facts.renderings@[f]@[slot],
            facts.saliency_floor,
            facts.separation_floor,
        )
    &&& forall|c: int, d: int|
        0 <= c < facts.separations@.len() && 0 <= d < facts.separations@.len()
            ==> #[trigger] forest.separated@[c]@[d] == facts.separation_floor.met_by(
            facts.separations@[c]@[d],
        )
}

fn usable(rendering: &Option<Rendering>, saliency_floor: Scalar, floor: SeparationFloor) -> (fit: bool)
    ensures
        fit == is_usable(*rendering, saliency_floor, floor),
{
    match rendering {
        Some(rendering) => saliency_floor.is_at_most(rendering.saliency) && separated_from(
            floor,
            &rendering.fixed,
        ),
        None => false,
    }
}

fn source_clusters(profile: &SyntaxProfile) -> (clusters: Vec<Option<usize>>)
    ensures
        clusters@.len() == profile.evidence@.len(),
        forall|s: int|
            0 <= s < profile.evidence@.len() ==> is_cluster_of(
                *profile,
                s as usize,
                #[trigger] clusters@[s],
            ),
{
    let mut clusters: Vec<Option<usize>> = Vec::new();
    let mut source: usize = 0;
    while source < profile.evidence.len()
        invariant
            source <= profile.evidence@.len(),
            clusters@.len() == source,
            forall|s: int|
                0 <= s < source ==> is_cluster_of(*profile, s as usize, #[trigger] clusters@[s]),
        decreases profile.evidence@.len() - source,
    {
        clusters.push(source_cluster(profile, source));
        source += 1;
    }
    clusters
}

fn preference_row(profile: &SyntaxProfile, role: SemanticRole) -> (row: Vec<usize>)
    requires
        evidence_named(profile.evidence@),
    ensures
        row@.len() == profile.evidence@.len(),
        forall|s: int|
            0 <= s < row@.len() ==> is_preference_value(
                role,
                profile.evidence@[s],
                #[trigger] row@[s] as int,
            ) && row@[s] <= MAX_PREFERENCE,
{
    let mut row: Vec<usize> = Vec::new();
    let mut source: usize = 0;
    while source < profile.evidence.len()
        invariant
            evidence_named(profile.evidence@),
            source <= profile.evidence@.len(),
            row@.len() == source,
            forall|s: int|
                0 <= s < row@.len() ==> is_preference_value(
                    role,
                    profile.evidence@[s],
                    #[trigger] row@[s] as int,
                ) && row@[s] <= MAX_PREFERENCE,
        decreases profile.evidence@.len() - source,
    {
        row.push(source_preference_value(role, &profile.evidence[source]));
        source += 1;
    }
    row
}

fn viable_row(renderings: &Vec<Option<Rendering>>, saliency_floor: Scalar, floor: SeparationFloor) -> (row: Vec<
    bool,
>)
    ensures
        row@.len() == renderings@.len(),
        forall|slot: int|
            0 <= slot < row@.len() ==> #[trigger] row@[slot] == is_usable(
                renderings@[slot],
                saliency_floor,
                floor,
            ),
{
    let mut row: Vec<bool> = Vec::new();
    let mut slot: usize = 0;
    while slot < renderings.len()
        invariant
            slot <= renderings@.len(),
            row@.len() == slot,
            forall|s: int|
                0 <= s < row@.len() ==> #[trigger] row@[s] == is_usable(
                    renderings@[s],
                    saliency_floor,
                    floor,
                ),
        decreases renderings@.len() - slot,
    {
        row.push(usable(&renderings[slot], saliency_floor, floor));
        slot += 1;
    }
    row
}

fn separated_row(separations: &Vec<Separation>, floor: SeparationFloor) -> (row: Vec<bool>)
    ensures
        row@.len() == separations@.len(),
        forall|c: int|
            0 <= c < row@.len() ==> #[trigger] row@[c] == floor.met_by(separations@[c]),
{
    let mut row: Vec<bool> = Vec::new();
    let mut cell: usize = 0;
    while cell < separations.len()
        invariant
            cell <= separations@.len(),
            row@.len() == cell,
            forall|c: int|
                0 <= c < row@.len() ==> #[trigger] row@[c] == floor.met_by(separations@[c]),
        decreases separations@.len() - cell,
    {
        row.push(floor.separates(separations[cell]));
        cell += 1;
    }
    row
}

/// States the facts that families are selected by.
pub fn semantic_forest(hierarchy: &MergePlan, profile: &SyntaxProfile, facts: &FamilyFacts) -> (forest: SemanticForest)
    requires
        hierarchy.families@.len() <= 6,
        parents_precede(hierarchy.views()),
        evidence_named(profile.evidence@),
        profile.evidence@.len() <= MAX_SOURCES,
        profile.clusters@.len() <= profile.evidence@.len(),
        facts.covers(hierarchy.families@.len(), profile.evidence@.len()),
    ensures
        forest.wf(),
        describes(forest, *hierarchy, *profile, *facts),
{
    let ghost families = hierarchy.families@;
    let clusters = source_clusters(profile);
    let mut parents: Vec<Option<usize>> = Vec::new();
    let mut preferences: Vec<Vec<usize>> = Vec::new();
    let mut roots: Vec<Vec<Option<usize>>> = Vec::new();
    let mut viable: Vec<Vec<bool>> = Vec::new();
    let mut family: usize = 0;
    while family < hierarchy.families.len()
        invariant
            families == hierarchy.families@,
            parents_precede(hierarchy.views()),
            evidence_named(profile.evidence@),
            facts.covers(families.len(), profile.evidence@.len()),
            family <= families.len(),
            parents@.len() == family,
            preferences@.len() == family,
            roots@.len() == family,
            viable@.len() == family,
            forall|f: int|
                0 <= f < family ==> #[trigger] parents@[f] == families[f].parent && (parents@[f] matches Some(
                    parent,
                ) ==> parent < f),
            forall|f: int|
                0 <= f < family ==> (#[trigger] preferences@[f])@.len() == profile.evidence@.len(),
            forall|f: int, s: int|
                0 <= f < family && 0 <= s < profile.evidence@.len() ==> is_preference_value(
                    families[f].source_preference,
                    profile.evidence@[s],
                    #[trigger] preferences@[f]@[s] as int,
                ) && preferences@[f]@[s] <= MAX_PREFERENCE,
            forall|f: int|
                0 <= f < family ==> lists_roots(
                    families[f].source_preference,
                    profile.evidence@,
                    (#[trigger] roots@[f])@,
                ),
            forall|f: int, k: int|
                0 <= f < family && 0 <= k < roots@[f]@.len() ==> ((
                #[trigger] roots@[f]@[k]) matches Some(source) ==> source < profile.evidence@.len()),
            forall|f: int|
                0 <= f < family ==> (#[trigger] viable@[f])@.len() == profile.evidence@.len() + 1,
            forall|f: int, slot: int|
                0 <= f < family && 0 <= slot <= profile.evidence@.len()
                    ==> #[trigger] viable@[f]@[slot] == is_usable(
                    facts.renderings@[f]@[slot],
                    facts.saliency_floor,
                    facts.separation_floor,
                ),
        decreases families.len() - family,
    {
        let held = &hierarchy.families[family];
        proof {
            assert(hierarchy.views()[family as int].parent == families[family as int].parent);
        }
        parents.push(held.parent);
        preferences.push(preference_row(profile, held.source_preference));
        roots.push(root_sources(profile, held.source_preference));
        assert(facts.renderings@[family as int]@.len() == profile.evidence@.len() + 1);
        viable.push(
            viable_row(&facts.renderings[family], facts.saliency_floor, facts.separation_floor),
        );
        family += 1;
    }
    let mut separated: Vec<Vec<bool>> = Vec::new();
    let mut cell: usize = 0;
    while cell < facts.separations.len()
        invariant
            facts.covers(families.len(), profile.evidence@.len()),
            cell <= facts.separations@.len(),
            separated@.len() == cell,
            forall|c: int|
                0 <= c < cell ==> (#[trigger] separated@[c])@.len() == facts.separations@.len(),
            forall|c: int, d: int|
                0 <= c < cell && 0 <= d < facts.separations@.len()
                    ==> #[trigger] separated@[c]@[d] == facts.separation_floor.met_by(
                    facts.separations@[c]@[d],
                ),
        decreases facts.separations@.len() - cell,
    {
        assert(facts.separations@[cell as int]@.len() == facts.separations@.len());
        separated.push(separated_row(&facts.separations[cell], facts.separation_floor));
        cell += 1;
    }
    let forest = SemanticForest { parents, clusters, preferences, roots, viable, separated };
    assert forall|s: int| 0 <= s < forest.sources() implies ((
    #[trigger] forest.clusters@[s]) matches Some(cluster) ==> cluster < forest.sources()) by {
        assert(is_cluster_of(*profile, s as usize, forest.clusters@[s]));
    }
    forest
}

/// A selected family with its color.
#[derive(Clone, Debug)]
pub struct FamilyAllocation {
    pub family: usize,
    pub roles: Vec<SemanticRole>,
    pub source: Option<usize>,
    pub output: String,
    pub measured_saliency: Scalar,
}

/// The families in use and their colors.
#[derive(Clone, Debug)]
pub struct SemanticPlan {
    pub plan: MergePlan,
    pub allocations: Vec<FamilyAllocation>,
}

/// The families that a selection names.
pub open spec fn chosen_families(choices: Seq<Choice>) -> Set<usize> {
    Set::new(
        |family: usize|
            exists|i: int| 0 <= i < choices.len() && (#[trigger] choices[i]).family == family,
    )
}

/// The choices below a family, when families ascend.
spec fn choices_below(choices: Seq<Choice>, family: int) -> Seq<int>
    decreases choices.len(),
{
    if choices.len() == 0 {
        Seq::empty()
    } else if choices.last().family < family {
        choices_below(choices.drop_last(), family).push(choices.last().family as int)
    } else {
        choices_below(choices.drop_last(), family)
    }
}

proof fn lemma_choices_below(choices: Seq<Choice>, family: int)
    requires
        forall|i: int, j: int|
            0 <= i < j < choices.len() ==> (#[trigger] choices[i]).family < (
            #[trigger] choices[j]).family,
        0 <= family < usize::MAX,
    ensures
        choices_below(choices, family + 1) == if chosen_families(choices).contains(family as usize) {
            choices_below(choices, family).push(family)
        } else {
            choices_below(choices, family)
        },
    decreases choices.len(),
{
    if choices.len() > 0 {
        let earlier = choices.drop_last();
        let last = choices.last().family as int;
        assert forall|i: int, j: int| 0 <= i < j < earlier.len() implies (
        #[trigger] earlier[i]).family < (#[trigger] earlier[j]).family by {
            assert(earlier[i] == choices[i] && earlier[j] == choices[j]);
        }
        lemma_choices_below(earlier, family);
        assert(chosen_families(choices).contains(family as usize) <==> chosen_families(
            earlier,
        ).contains(family as usize) || last == family) by {
            if chosen_families(choices).contains(family as usize) {
                let at = choose|i: int|
                    0 <= i < choices.len() && (#[trigger] choices[i]).family == family as usize;
                if at < earlier.len() {
                    assert(earlier[at] == choices[at]);
                }
            }
            if chosen_families(earlier).contains(family as usize) {
                let at = choose|i: int|
                    0 <= i < earlier.len() && (#[trigger] earlier[i]).family == family as usize;
                assert(choices[at] == earlier[at]);
            }
            if last == family {
                assert(choices[choices.len() - 1].family == family as usize);
            }
        }
        if chosen_families(earlier).contains(family as usize) {
            let at = choose|i: int|
                0 <= i < earlier.len() && (#[trigger] earlier[i]).family == family as usize;
            assert(choices[at].family < choices[choices.len() - 1].family);
        }
    }
}

proof fn lemma_active_are_chosen(choices: Seq<Choice>, count: nat)
    requires
        forall|i: int, j: int|
            0 <= i < j < choices.len() ==> (#[trigger] choices[i]).family < (
            #[trigger] choices[j]).family,
        count < usize::MAX,
    ensures
        active_positions(chosen_families(choices), count) == choices_below(choices, count as int),
    decreases count,
{
    if count > 0 {
        lemma_active_are_chosen(choices, (count - 1) as nat);
        lemma_choices_below(choices, count - 1);
    } else {
        lemma_nothing_below(choices);
    }
}

proof fn lemma_nothing_below(choices: Seq<Choice>)
    ensures
        choices_below(choices, 0) == Seq::<int>::empty(),
    decreases choices.len(),
{
    if choices.len() > 0 {
        lemma_nothing_below(choices.drop_last());
    }
}

proof fn lemma_all_below(choices: Seq<Choice>, count: int)
    requires
        forall|i: int| 0 <= i < choices.len() ==> (#[trigger] choices[i]).family < count,
    ensures
        choices_below(choices, count).len() == choices.len(),
        forall|i: int|
            0 <= i < choices.len() ==> choices_below(choices, count)[i] == (
            #[trigger] choices[i]).family,
    decreases choices.len(),
{
    if choices.len() > 0 {
        let earlier = choices.drop_last();
        assert forall|i: int| 0 <= i < earlier.len() implies (#[trigger] earlier[i]).family
            < count by {
            assert(earlier[i] == choices[i]);
        }
        lemma_all_below(earlier, count);
        assert(choices[choices.len() - 1].family < count);
        assert forall|i: int| 0 <= i < choices.len() implies choices_below(choices, count)[i] == (
        #[trigger] choices[i]).family by {
            if i < earlier.len() {
                assert(earlier[i] == choices[i]);
            }
        }
    }
}

/// Whether the plan keeps exactly the chosen families, each with the color of its
/// rendering.
pub open spec fn realizes(
    semantic: SemanticPlan,
    hierarchy: MergePlan,
    facts: FamilyFacts,
    choices: Seq<Choice>,
) -> bool {
    &&& semantic.plan.views() == activated_families(hierarchy.views(), chosen_families(choices))
    &&& semantic.plan.families@.len() == choices.len()
    &&& semantic.allocations@.len() == choices.len()
    &&& forall|k: int|
        0 <= k < choices.len() ==> {
            let allocation = #[trigger] semantic.allocations@[k];
            let rendering = facts.renderings@[choices[k].family as int]@[SemanticForest::slot_of(
                choices[k].source,
            )];
            &&& allocation.family == k
            &&& allocation.source == choices[k].source
            &&& allocation.roles@ == semantic.plan.families@[k].roles@
            &&& rendering matches Some(rendering)
            &&& allocation.output@ == rendering.output@
            &&& allocation.measured_saliency == rendering.saliency
        }
}

fn copy_roles(roles: &Vec<SemanticRole>) -> (copied: Vec<SemanticRole>)
    ensures
        copied@ == roles@,
{
    let mut copied: Vec<SemanticRole> = Vec::new();
    let mut index: usize = 0;
    while index < roles.len()
        invariant
            index <= roles@.len(),
            copied@ == roles@.take(index as int),
        decreases roles@.len() - index,
    {
        copied.push(roles[index]);
        index += 1;
        assert(copied@ =~= roles@.take(index as int));
    }
    assert(copied@ =~= roles@);
    copied
}

/// Selects the syntax families a palette carries and gives each its color. The
/// outcome does not depend on `prune`.
pub fn select_semantic_plan(
    hierarchy: &MergePlan,
    profile: &SyntaxProfile,
    facts: &FamilyFacts,
    prune: bool,
) -> (semantic: SemanticPlan)
    requires
        hierarchy.families@.len() <= 6,
        parents_precede(hierarchy.views()),
        evidence_named(profile.evidence@),
        profile.evidence@.len() <= MAX_SOURCES,
        profile.clusters@.len() <= profile.evidence@.len(),
        facts.covers(hierarchy.families@.len(), profile.evidence@.len()),
    ensures
        exists|forest: SemanticForest|
            {
                &&& forest.wf()
                &&& #[trigger] describes(forest, *hierarchy, *profile, *facts)
                &&& realizes(
                    semantic,
                    *hierarchy,
                    *facts,
                    forest.explored(0, Seq::empty(), Seq::empty()),
                )
            },
{
    let forest = semantic_forest(hierarchy, profile, facts);
    let choices = forest.best_selection(prune);
    let mut active: BTreeSet<usize> = BTreeSet::new();
    let mut index: usize = 0;
    assert(active@ =~= chosen_families(choices@.take(0)));
    while index < choices.len()
        invariant
            index <= choices@.len(),
            active@ == chosen_families(choices@.take(index as int)),
        decreases choices@.len() - index,
    {
        let ghost shorter = choices@.take(index as int);
        let ghost longer = choices@.take(index as int + 1);
        active.insert(choices[index].family);
        assert(active@ =~= chosen_families(longer)) by {
            assert forall|family: usize| chosen_families(longer).contains(family) <==> chosen_families(
                shorter,
            ).contains(family) || family == choices@[index as int].family by {
                if chosen_families(longer).contains(family) {
                    let at = choose|i: int|
                        0 <= i < longer.len() && (#[trigger] longer[i]).family == family;
                    if at < index {
                        assert(shorter[at] == longer[at]);
                    }
                }
                if chosen_families(shorter).contains(family) {
                    let at = choose|i: int|
                        0 <= i < shorter.len() && (#[trigger] shorter[i]).family == family;
                    assert(longer[at] == shorter[at]);
                }
                assert(longer[index as int] == choices@[index as int]);
            }
        }
        index += 1;
    }
    assert(choices@.take(index as int) =~= choices@);
    let plan = hierarchy.activate(&active);
    proof {
        lemma_active_are_chosen(choices@, hierarchy.families@.len());
        lemma_all_below(choices@, hierarchy.families@.len() as int);
        assert(plan.views().len() == choices@.len());
        assert(plan.families@.len() == plan.views().len());
        forest.lemma_selection_is_buildable();
    }
    let mut allocations: Vec<FamilyAllocation> = Vec::new();
    let mut family: usize = 0;
    while family < choices.len()
        invariant
            forest.wf(),
            describes(forest, *hierarchy, *profile, *facts),
            facts.covers(hierarchy.families@.len(), profile.evidence@.len()),
            forest.buildable(choices@),
            plan.families@.len() == choices@.len(),
            family <= choices@.len(),
            allocations@.len() == family,
            forall|k: int|
                0 <= k < family ==> {
                    let allocation = #[trigger] allocations@[k];
                    let rendering =
                        facts.renderings@[choices@[k].family as int]@[SemanticForest::slot_of(
                        choices@[k].source,
                    )];
                    &&& allocation.family == k
                    &&& allocation.source == choices@[k].source
                    &&& allocation.roles@ == plan.families@[k].roles@
                    &&& rendering matches Some(rendering)
                    &&& allocation.output@ == rendering.output@
                    &&& allocation.measured_saliency == rendering.saliency
                },
        decreases choices@.len() - family,
    {
        let choice = choices[family];
        proof {
            assert(forest.in_range(choices@[family as int]));
            assert(forest.admits(choices@.take(family as int), choices@[family as int]));
            assert(forest.viable@[choice.family as int]@[SemanticForest::slot_of(choice.source)]);
            assert(facts.renderings@[choice.family as int]@.len() == profile.evidence@.len() + 1);
        }
        let slot: usize = match choice.source {
            Some(source) => source + 1,
            None => 0,
        };
        if let Some(rendering) = &facts.renderings[choice.family][slot] {
            allocations.push(
                FamilyAllocation {
                    family,
                    roles: copy_roles(&plan.families[family].roles),
                    source: choice.source,
                    output: rendering.output.clone(),
                    measured_saliency: rendering.saliency,
                },
            );
        }
        family += 1;
    }
    let semantic = SemanticPlan { plan, allocations };
    assert(realizes(semantic, *hierarchy, *facts, choices@));
    semantic
}

/// The colors that do not come from families.
pub struct FixedRoleColors {
    pub base: String,
    pub subdued: String,
    pub predictive: String,
    pub change: String,
    pub add: String,
    pub delete: String,
}

/// Whether `color` is the color of `role`.
pub open spec fn is_role_color(
    fixed: FixedRoleColors,
    semantic: SemanticPlan,
    role: SemanticRole,
    color: Seq<char>,
) -> bool {
    match role {
        SemanticRole::Base => color == fixed.base@,
        SemanticRole::Subdued => color == fixed.subdued@,
        SemanticRole::Predictive => color == fixed.predictive@,
        SemanticRole::DiffChange => color == fixed.change@,
        SemanticRole::DiffAdd => color == fixed.add@,
        SemanticRole::DiffDelete => color == fixed.delete@,
        _ => exists|family: Option<usize>|
            {
                &&& #[trigger] is_family_for(semantic.plan.views(), role, family)
                &&& color == match family {
                    Some(family) => semantic.allocations@[family as int].output@,
                    None => if role == SemanticRole::Metadata {
                        fixed.subdued@
                    } else {
                        fixed.base@
                    },
                }
            },
    }
}

/// The color of a role: its own, its family's, or that of the role it falls back
/// to.
pub fn role_color(fixed: &FixedRoleColors, semantic: &SemanticPlan, role: SemanticRole) -> (color: String)
    requires
        semantic.allocations@.len() == semantic.plan.families@.len(),
    ensures
        is_role_color(*fixed, *semantic, role, color@),
{
    match role {
        SemanticRole::Base => fixed.base.clone(),
        SemanticRole::Subdued => fixed.subdued.clone(),
        SemanticRole::Predictive => fixed.predictive.clone(),
        SemanticRole::DiffChange => fixed.change.clone(),
        SemanticRole::DiffAdd => fixed.add.clone(),
        SemanticRole::DiffDelete => fixed.delete.clone(),
        _ => {
            let family = semantic.plan.family_for(role);
            assert(is_family_for(semantic.plan.views(), role, family));
            match family {
                Some(family) => semantic.allocations[family].output.clone(),
                None => if semantic.plan.fallback_for(role) == SemanticRole::Subdued {
                    fixed.subdued.clone()
                } else {
                    fixed.base.clone()
                },
            }
        },
    }
}

/// Whether a capture is set in italics.
pub open spec fn is_italic(capture: Seq<char>) -> bool {
    ||| capture == "comment"@
    ||| capture == "comment.doc"@
    ||| capture == "predictive"@
    ||| capture == "variable.parameter"@
    ||| capture == "lifetime"@
    ||| capture == "emphasis"@
    ||| capture == "link_uri"@
}

/// The weight a capture is set in, unless it is the ordinary one.
pub open spec fn weight_of(capture: Seq<char>) -> Option<u16> {
    if capture == "emphasis.strong"@ || capture == "title"@ {
        Some(700)
    } else if capture == "function.builtin"@ || capture == "keyword"@ || capture == "preproc"@
        || capture == "storageclass"@ || capture == "hint"@ || capture == "warning"@ || capture
        == "diff"@ || capture == "diff.plus"@ || capture == "diff.minus"@ {
        Some(600)
    } else {
        None
    }
}

/// The font style and weight of a capture.
pub fn capture_style(capture: &str) -> (style: (Option<&'static str>, Option<u16>))
    ensures
        style.0 is Some <==> is_italic(capture@),
        style.0 matches Some(name) ==> name@ == "italic"@,
        style.1 == weight_of(capture@),
{
    let italic = same_text(capture, "comment") || same_text(capture, "comment.doc") || same_text(
        capture,
        "predictive",
    ) || same_text(capture, "variable.parameter") || same_text(capture, "lifetime") || same_text(
        capture,
        "emphasis",
    ) || same_text(capture, "link_uri");
    let weight: Option<u16> = if same_text(capture, "emphasis.strong") || same_text(
        capture,
        "title",
    ) {
        Some(700)
    } else if same_text(capture, "function.builtin") || same_text(capture, "keyword") || same_text(
        capture,
        "preproc",
    ) || same_text(capture, "storageclass") || same_text(capture, "hint") || same_text(
        capture,
        "warning",
    ) || same_text(capture, "diff") || same_text(capture, "diff.plus") || same_text(
        capture,
        "diff.minus",
    ) {
        Some(600)
    } else {
        None
    };
    let style: Option<&'static str> = if italic {
        Some("italic")
    } else {
        None
    };
    (style, weight)
}

/// How the theme sets one capture.
#[derive(Clone, Debug)]
pub struct SyntaxStyle {
    pub capture: &'static str,
    pub color: String,
    pub font_style: Option<&'static str>,
    pub font_weight: Option<u16>,
}

/// Whether `styles` set every capture in the color of its role.
pub open spec fn styles_captures(
    fixed: FixedRoleColors,
    semantic: SemanticPlan,
    styles: Seq<SyntaxStyle>,
) -> bool {
    &&& styles.len() == capture_names().len()
    &&& forall|i: int|
        0 <= i < styles.len() ==> {
            let style = #[trigger] styles[i];
            &&& style.capture@ == capture_names()[i]
            &&& is_role_color(fixed, semantic, CAPTURE_ROLES@[i], style.color@)
            &&& style.font_style is Some <==> is_italic(style.capture@)
            &&& style.font_style matches Some(name) ==> name@ == "italic"@
            &&& style.font_weight == weight_of(style.capture@)
        }
}

/// Sets every capture of the theme in the color of its role.
pub fn syntax_styles(fixed: &FixedRoleColors, semantic: &SemanticPlan) -> (styles: Vec<SyntaxStyle>)
    requires
        semantic.allocations@.len() == semantic.plan.families@.len(),
    ensures
        styles_captures(*fixed, *semantic, styles@),
{
    let policies = capture_policies();
    let mut styles: Vec<SyntaxStyle> = Vec::new();
    let mut index: usize = 0;
    while index < policies.len()
        invariant
            semantic.allocations@.len() == semantic.plan.families@.len(),
            policies@.len() == capture_names().len(),
            forall|i: int|
                0 <= i < policies@.len() ==> (#[trigger] policies@[i]).capture@
                    == capture_names()[i] && policies@[i].role == CAPTURE_ROLES@[i],
            index <= policies@.len(),
            styles@.len() == index,
            forall|i: int|
                0 <= i < styles@.len() ==> {
                    let style = #[trigger] styles@[i];
                    &&& style.capture@ == capture_names()[i]
                    &&& is_role_color(*fixed, *semantic, CAPTURE_ROLES@[i], style.color@)
                    &&& style.font_style is Some <==> is_italic(style.capture@)
                    &&& style.font_style matches Some(name) ==> name@ == "italic"@
                    &&& style.font_weight == weight_of(style.capture@)
                },
        decreases policies@.len() - index,
    {
        let policy = policies[index];
        let (font_style, font_weight) = capture_style(policy.capture);
        styles.push(
            SyntaxStyle {
                capture: policy.capture,
                color: role_color(fixed, semantic, policy.role),
                font_style,
                font_weight,
            },
        );
        index += 1;
    }
    styles
}

/// The message about the first color from `from` on that is not opaque.
pub open spec fn list_fault(label: Seq<char>, values: Seq<Seq<char>>, from: int) -> Option<Seq<char>>
    decreases values.len() - from,
{
    if from < 0 || from >= values.len() {
        None
    } else if !is_opaque_hex(values[from]) {
        Some(opaque_hex_message(label + " "@ + decimal_of(from as nat), values[from]))
    } else {
        list_fault(label, values, from + 1)
    }
}

fn validate_list(label: &str, values: &[&str]) -> (result: Result<()>)
    ensures
        result is Ok <==> list_fault(label@, slice_views(values@), 0) is None,
        result matches Err(error) ==> error.is_invalid(
            list_fault(label@, slice_views(values@), 0)->0,
        ),
{
    let ghost all = slice_views(values@);
    let mut index: usize = 0;
    while index < values.len()
        invariant
            all == slice_views(values@),
            index <= values@.len(),
            list_fault(label@, all, 0) == list_fault(label@, all, index as int),
        decreases values@.len() - index,
    {
        assert(all[index as int] == values@[index as int]@);
        let mut name = label.to_owned();
        name.append(" ");
        name.append(decimal(index).as_str());
        match validate_opaque_hex(values[index], name.as_str()) {
            Ok(()) => {},
            Err(error) => {
                return Err(error);
            },
        }
        index += 1;
    }
    Ok(())
}

fn borrowed(values: &Vec<String>) -> (texts: Vec<&str>)
    ensures
        slice_views(texts@) == views(values@),
{
    let mut texts: Vec<&str> = Vec::new();
    let mut index: usize = 0;
    let ghost all = views(values@);
    while index < values.len()
        invariant
            index <= values@.len(),
            all == views(values@),
            slice_views(texts@) == all.take(index as int),
        decreases values@.len() - index,
    {
        let ghost held = slice_views(texts@);
        texts.push(values[index].as_str());
        assert(slice_views(texts@) =~= held.push(values@[index as int]@));
        index += 1;
        assert(slice_views(texts@) =~= all.take(index as int));
    }
    assert(all.take(index as int) =~= all);
    texts
}

/// The message about the first thing that is wrong with the inputs of syntax
/// construction.
pub open spec fn syntax_input_fault(
    palette: ResolvedPalette,
    ordinary: Seq<Seq<char>>,
    rendered: Seq<Seq<char>>,
    saliency_reference: Seq<char>,
    predictive: Seq<char>,
    diff_sources: Seq<Seq<char>>,
) -> Option<Seq<char>> {
    let diff = list_fault("diff source"@, diff_sources, 0);
    let first = list_fault("ordinary syntax context"@, ordinary, 0);
    let second = list_fault("rendered syntax context"@, rendered, 0);
    if palette.fault() is Some {
        palette.fault()
    } else if ordinary.len() == 0 || rendered.len() == 0 {
        Some("syntax generation requires ordinary and rendered contexts"@)
    } else if !is_opaque_hex(saliency_reference) {
        Some(opaque_hex_message("saliency reference"@, saliency_reference))
    } else if !is_opaque_hex(predictive) {
        Some(opaque_hex_message("predictive"@, predictive))
    } else if diff is Some {
        diff
    } else if first is Some {
        first
    } else {
        second
    }
}

/// Accepts a valid palette with contexts on both sides, all colors opaque.
pub fn validate_syntax_inputs(
    palette: &ResolvedPalette,
    contexts: &SyntaxContexts<'_>,
    saliency_reference: &str,
    predictive: &str,
    diff_sources: [&str; 3],
) -> (result: Result<()>)
    ensures
        result is Ok <==> syntax_input_fault(
            *palette,
            views(contexts.ordinary@),
            views(contexts.rendered@),
            saliency_reference@,
            predictive@,
            slice_views(diff_sources@),
        ) is None,
        result matches Err(error) ==> error.is_invalid(
            syntax_input_fault(
                *palette,
                views(contexts.ordinary@),
                views(contexts.rendered@),
                saliency_reference@,
                predictive@,
                slice_views(diff_sources@),
            )->0,
        ),
{
    assert(views(contexts.ordinary@).len() == contexts.ordinary@.len());
    assert(views(contexts.rendered@).len() == contexts.rendered@.len());
    palette.validate()?;
    if contexts.ordinary.len() == 0 || contexts.rendered.len() == 0 {
        return Err(
            Error::invalid("syntax generation requires ordinary and rendered contexts".to_owned()),
        );
    }
    validate_opaque_hex(saliency_reference, "saliency reference")?;
    validate_opaque_hex(predictive, "predictive")?;
    validate_list("diff source", &diff_sources)?;
    validate_list("ordinary syntax context", borrowed(contexts.ordinary).as_slice())?;
    validate_list("rendered syntax context", borrowed(contexts.rendered).as_slice())
}

} // verus!
