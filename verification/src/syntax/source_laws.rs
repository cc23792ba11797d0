//! Which palette colors syntax is made from, and in which order roles want them.

use crate::color::is_opaque_hex;
use crate::order::{is_stable_order, key_before, stable_before};
use crate::palette::{Provenance, ResolvedPalette};
use crate::scalar::Scalar;
use crate::syntax::audit::{is_colored, reports_family, stand_in, uncolored, FamilyAudit};
use crate::syntax::plan::{
    activated, activated_families, active_positions, anchor_active, forest_families, FamilyView,
    SemanticRole, ToneBand, ORDINARY_ROLES,
};
use crate::syntax::profile::{
    chromatic_flags, evidence_keys, groups_evidence, is_best_merge, is_representative, keys_with,
    lists_evidence, merge_key, partitions, spread, EvidenceColor, EvidenceGroup, Measured,
};
use crate::syntax::{
    family_of_key, has_family, is_affinity, is_preference_value, is_priority, is_source_key,
    is_usable, list_fault, preferred_keys, ranks_sources, syntax_input_fault, Rendering,
    SeparationFloor,
};
use crate::text::{lowered, slice_views};
use vstd::prelude::*;

verus! {

/// Which hues each kind of name is best colored from, best first: calls are blue, types
/// yellow, members cyan, control flow magenta, values orange, strings green, metadata
/// yellow and links accented.
pub proof fn lemma_preferred_hues()
    ensures
        preferred_keys(SemanticRole::Callable) == seq!["blue"@, "accent"@, "cyan"@, "magenta"@],
        preferred_keys(SemanticRole::Type) == seq![
            "yellow"@,
            "cyan"@,
            "blue"@,
            "accent"@,
            "magenta"@,
        ],
        preferred_keys(SemanticRole::Member) == seq!["cyan"@, "yellow"@, "magenta"@, "accent"@],
        preferred_keys(SemanticRole::Control) == seq!["magenta"@, "red"@, "orange"@, "accent"@],
        preferred_keys(SemanticRole::Value) == seq![
            "orange"@,
            "magenta"@,
            "yellow"@,
            "red"@,
            "brown"@,
        ],
        preferred_keys(SemanticRole::String) == seq![
            "green"@,
            "yellow"@,
            "cyan"@,
            "red"@,
            "magenta"@,
        ],
        preferred_keys(SemanticRole::Metadata) == seq!["yellow"@, "blue"@, "cyan"@, "accent"@],
        preferred_keys(SemanticRole::Link) == seq!["accent"@, "blue"@, "cyan"@, "magenta"@],
        preferred_keys(SemanticRole::Base).len() == 0,
        preferred_keys(SemanticRole::Subdued).len() == 0,
        preferred_keys(SemanticRole::Predictive).len() == 0,
{
}

/// A bright color belongs to the family of the plain one, and every other color to its own.
pub proof fn lemma_bright_shares_the_family(key: Seq<char>)
    ensures
        family_of_key("bright_"@ + key) == key,
        !(key.len() >= 7 && key.take(7) == "bright_"@) ==> family_of_key(key) == key,
{
    reveal_strlit("bright_");
    let bright = "bright_"@ + key;
    assert(bright.take(7) =~= "bright_"@);
    assert(bright.skip(7) =~= key);
}

/// Whether the source is of a family that the role prefers at `rank` or earlier.
pub open spec fn is_preferred_by(role: SemanticRole, source: EvidenceColor, rank: int) -> bool {
    exists|k: int|
        0 <= k <= rank && k < preferred_keys(role).len() && has_family(
            slice_views(source.keys@),
            #[trigger] preferred_keys(role)[k],
        )
}

proof fn lemma_affinity_decides(role: SemanticRole, source: EvidenceColor, found: Option<usize>)
    requires
        is_affinity(role, slice_views(source.keys@), found),
    ensures
        forall|rank: int|
            0 <= rank < preferred_keys(role).len() ==> (#[trigger] is_preferred_by(
                role,
                source,
                rank,
            ) <==> (found matches Some(at) && at <= rank)),
{
    let keys = slice_views(source.keys@);
    assert forall|rank: int| 0 <= rank < preferred_keys(role).len() implies (
    #[trigger] is_preferred_by(role, source, rank) <==> (found matches Some(at) && at <= rank)) by {
        if is_preferred_by(role, source, rank) {
            let k = choose|k: int|
                0 <= k <= rank && k < preferred_keys(role).len() && has_family(
                    keys,
                    #[trigger] preferred_keys(role)[k],
                );
            assert(has_family(keys, preferred_keys(role)[k]));
        }
        if let Some(at) = found {
            if at <= rank {
                assert(has_family(keys, preferred_keys(role)[at as int]));
            }
        }
    }
}

/// A role takes its sources in the order of its preferences: what comes first is of a family
/// that it prefers at least as much as that of anything behind it, and among sources of
/// which it prefers none, the stronger chroma comes first. Every source is listed once.
pub proof fn lemma_sources_come_as_preferred(
    role: SemanticRole,
    evidence: Seq<EvidenceColor>,
    sources: Seq<usize>,
    first: int,
    second: int,
)
    requires
        ranks_sources(role, evidence, sources),
        0 <= first < second < sources.len(),
    ensures
        sources.len() == evidence.len(),
        sources[first] != sources[second],
        sources[first] < evidence.len(),
        ({
            let one = evidence[sources[first] as int];
            let other = evidence[sources[second] as int];
            let last = preferred_keys(role).len() - 1;
            &&& forall|rank: int|
                0 <= rank <= last && #[trigger] is_preferred_by(role, other, rank)
                    ==> is_preferred_by(role, one, rank)
            &&& !is_preferred_by(role, one, last) ==> other.chroma.place() <= one.chroma.place()
        }),
{
    let keys = choose|keys: Seq<Seq<i64>>|
        {
            &&& keys.len() == evidence.len()
            &&& forall|i: int|
                0 <= i < evidence.len() ==> is_source_key(role, evidence[i], #[trigger] keys[i])
            &&& #[trigger] is_stable_order(keys, sources)
        };
    let left = sources[first] as int;
    let right = sources[second] as int;
    assert(stable_before(keys, left, right));
    let one = evidence[left];
    let other = evidence[right];
    assert(is_source_key(role, one, keys[left]));
    assert(is_source_key(role, other, keys[right]));
    let (rank, priority) = choose|rank: Option<usize>, priority: int|
        {
            &&& #[trigger] is_affinity(role, slice_views(one.keys@), rank)
            &&& #[trigger] is_priority(slice_views(one.keys@), priority)
            &&& keys[left] == match rank {
                Some(rank) => seq![
                    0,
                    rank as i64,
                    priority as i64,
                    (-1 - one.chroma.place()) as i64,
                ],
                None => seq![
                    1,
                    (-1 - one.chroma.place()) as i64,
                    priority as i64,
                    (-1 - one.chroma.place()) as i64,
                ],
            }
        };
    let (later, after) = choose|rank: Option<usize>, priority: int|
        {
            &&& #[trigger] is_affinity(role, slice_views(other.keys@), rank)
            &&& #[trigger] is_priority(slice_views(other.keys@), priority)
            &&& keys[right] == match rank {
                Some(rank) => seq![
                    0,
                    rank as i64,
                    priority as i64,
                    (-1 - other.chroma.place()) as i64,
                ],
                None => seq![
                    1,
                    (-1 - other.chroma.place()) as i64,
                    priority as i64,
                    (-1 - other.chroma.place()) as i64,
                ],
            }
        };
    lemma_affinity_decides(role, one, rank);
    lemma_affinity_decides(role, other, later);
    reveal_with_fuel(key_before, 3);
    assert(keys[left].drop_first()[0] == keys[left][1]);
    assert(keys[right].drop_first()[0] == keys[right][1]);
    assert(preferred_keys(role).len() <= 5);
    if preferred_keys(role).len() == 0 {
        assert(rank is None && later is None);
    } else {
        assert(is_preferred_by(role, one, preferred_keys(role).len() - 1) <==> rank is Some);
    }
}

/// A source of a family that a role prefers more is worth more to it, whatever the registry
/// of evidence says.
pub proof fn lemma_preferred_source_is_worth_more(
    role: SemanticRole,
    one: EvidenceColor,
    other: EvidenceColor,
    value: int,
    less: int,
    rank: int,
)
    requires
        is_preference_value(role, one, value),
        is_preference_value(role, other, less),
        0 <= rank < preferred_keys(role).len(),
        is_preferred_by(role, one, rank),
        !is_preferred_by(role, other, rank),
    ensures
        value > less,
{
    let (found, priority) = choose|found: Option<usize>, priority: int|
        {
            &&& #[trigger] is_affinity(role, slice_views(one.keys@), found)
            &&& #[trigger] is_priority(slice_views(one.keys@), priority)
            &&& value == match found {
                Some(rank) => (preferred_keys(role).len() - rank) * 16 + (15 - priority),
                None => 15 - priority,
            }
        };
    let (later, after) = choose|found: Option<usize>, priority: int|
        {
            &&& #[trigger] is_affinity(role, slice_views(other.keys@), found)
            &&& #[trigger] is_priority(slice_views(other.keys@), priority)
            &&& less == match found {
                Some(rank) => (preferred_keys(role).len() - rank) * 16 + (15 - priority),
                None => 15 - priority,
            }
        };
    lemma_affinity_decides(role, one, found);
    lemma_affinity_decides(role, other, later);
    assert(evidence_keys().len() == 15);
}

proof fn lemma_keys_with(palette: ResolvedPalette, keys: Seq<Seq<char>>, value: Seq<char>)
    ensures
        forall|key: Seq<char>| #[trigger]
            keys_with(palette, keys, value).contains(key) <==> keys.contains(key)
                && palette.provenance@[key] != Provenance::Derived && lowered(
                palette.colors@[key]@,
            ) == value,
    decreases keys.len(),
{
    let found = keys_with(palette, keys, value);
    if keys.len() > 0 {
        let shorter = keys.drop_last();
        lemma_keys_with(palette, shorter, value);
        let earlier = keys_with(palette, shorter, value);
        assert forall|key: Seq<char>| #[trigger] found.contains(key) <==> keys.contains(key)
            && palette.provenance@[key] != Provenance::Derived && lowered(palette.colors@[key]@)
            == value by {
            assert(earlier.contains(key) <==> shorter.contains(key) && palette.provenance@[key]
                != Provenance::Derived && lowered(palette.colors@[key]@) == value);
            if found.contains(key) {
                let at = choose|i: int| 0 <= i < found.len() && found[i] == key;
                if at < earlier.len() {
                    assert(earlier[at] == key);
                    let from = choose|i: int| 0 <= i < shorter.len() && shorter[i] == key;
                    assert(keys[from] == key);
                } else {
                    assert(keys[keys.len() - 1] == key);
                }
            }
            if keys.contains(key) {
                let at = choose|i: int| 0 <= i < keys.len() && keys[i] == key;
                if at < shorter.len() {
                    assert(shorter[at] == key);
                }
            }
            if earlier.contains(key) {
                let at = choose|i: int| 0 <= i < earlier.len() && earlier[i] == key;
                assert(found[at] == key);
            }
            if found.len() > earlier.len() {
                assert(found[earlier.len() as int] == keys.last());
            }
        }
    }
}

/// Exactly the authored colors are evidence: a key stands in the group of its color, spelled
/// in small letters, unless the color was derived, and in no other group.
pub proof fn lemma_authored_colors_are_evidence(
    palette: ResolvedPalette,
    keys: Seq<Seq<char>>,
    groups: Seq<EvidenceGroup>,
    key: Seq<char>,
)
    requires
        groups_evidence(palette, keys, groups),
        keys.contains(key),
    ensures
        (exists|i: int|
            0 <= i < groups.len() && slice_views((#[trigger] groups[i]).keys@).contains(key))
            <==> palette.provenance@[key] != Provenance::Derived,
        forall|i: int|
            0 <= i < groups.len() && slice_views((#[trigger] groups[i]).keys@).contains(key)
                ==> groups[i].value@ == lowered(palette.colors@[key]@),
{
    assert forall|i: int|
        0 <= i < groups.len() && slice_views((#[trigger] groups[i]).keys@).contains(
            key,
        ) implies groups[i].value@ == lowered(palette.colors@[key]@) && palette.provenance@[key]
        != Provenance::Derived by {
        lemma_keys_with(palette, keys, groups[i].value@);
    }
    if palette.provenance@[key] != Provenance::Derived {
        let value = lowered(palette.colors@[key]@);
        lemma_keys_with(palette, keys, value);
        let found = keys_with(palette, keys, value);
        assert(found.contains(key));
        assert(found.len() > 0);
        let at = choose|i: int| 0 <= i < groups.len() && (#[trigger] groups[i]).value@ == value;
        assert(slice_views(groups[at].keys@).contains(key));
    }
}

/// The hues that count as evidence: the six terminal hues, plain and bright, with orange,
/// the accent and brown. The registry names green first, then blue, magenta and yellow.
pub proof fn lemma_evidence_registry()
    ensures
        evidence_keys() == seq![
            "green"@,
            "blue"@,
            "magenta"@,
            "yellow"@,
            "red"@,
            "cyan"@,
            "orange"@,
            "accent"@,
            "brown"@,
            "bright_green"@,
            "bright_blue"@,
            "bright_magenta"@,
            "bright_yellow"@,
            "bright_red"@,
            "bright_cyan"@,
        ],
{
    assert(evidence_keys() =~= seq![
        "green"@,
        "blue"@,
        "magenta"@,
        "yellow"@,
        "red"@,
        "cyan"@,
        "orange"@,
        "accent"@,
        "brown"@,
        "bright_green"@,
        "bright_blue"@,
        "bright_magenta"@,
        "bright_yellow"@,
        "bright_red"@,
        "bright_cyan"@,
    ]);
}

/// Evidence is listed by rising hue.
pub proof fn lemma_evidence_rises_in_hue(
    groups: Seq<EvidenceGroup>,
    measured: Seq<Measured>,
    order: Seq<usize>,
    evidence: Seq<EvidenceColor>,
    first: int,
    second: int,
)
    requires
        lists_evidence(groups, measured, order, evidence),
        groups.len() == measured.len(),
        0 <= first < second < evidence.len(),
    ensures
        evidence[first].hue.place() <= evidence[second].hue.place(),
{
    let keys = measured.map_values(|color: Measured| seq![color.hue.place() as i64]);
    let left = order[first] as int;
    let right = order[second] as int;
    assert(stable_before(keys, left, right));
    assert(evidence[first].hue == measured[left].hue);
    assert(evidence[second].hue == measured[right].hue);
    reveal_with_fuel(key_before, 2);
    assert(keys[left][0] == measured[left].hue.place());
    assert(keys[right][0] == measured[right].hue.place());
}

/// A cluster is represented by a member with the strongest chroma.
pub proof fn lemma_representative_is_strongest(
    evidence: Seq<EvidenceColor>,
    members: Seq<usize>,
    representative: usize,
    member: usize,
)
    requires
        is_representative(evidence, members, representative),
        members.contains(member),
    ensures
        members.contains(representative),
        evidence[member as int].chroma.place() <= evidence[representative as int].chroma.place(),
{
}

/// Exactly the evidence that reaches the chroma floor belongs to a hue cluster.
pub proof fn lemma_colorful_evidence_is_clustered(
    evidence: Seq<EvidenceColor>,
    floor: Scalar,
    clusters: Seq<Seq<usize>>,
    source: int,
)
    requires
        partitions(chromatic_flags(evidence, floor), clusters),
        0 <= source < evidence.len() <= usize::MAX,
    ensures
        floor.at_most(evidence[source].chroma) <==> exists|c: int|
            0 <= c < clusters.len() && (#[trigger] clusters[c]).contains(source as usize),
{
    let flags = chromatic_flags(evidence, floor);
    assert(flags[source] == floor.at_most(evidence[source].chroma));
    if exists|c: int| 0 <= c < clusters.len() && (#[trigger] clusters[c]).contains(source as usize) {
        let c = choose|c: int|
            0 <= c < clusters.len() && (#[trigger] clusters[c]).contains(source as usize);
        let at = choose|i: int| 0 <= i < clusters[c].len() && clusters[c][i] == source as usize;
        assert(clusters[c][at] == source as usize);
    }
}

/// The two clusters that are merged next are within the limit, and none that are lie closer
/// together.
pub proof fn lemma_nearest_clusters_merge_first(
    distances: Seq<Vec<Scalar>>,
    limit: Scalar,
    clusters: Seq<Seq<usize>>,
    left: int,
    right: int,
    one: int,
    other: int,
)
    requires
        is_best_merge(distances, limit, clusters, left, right),
        0 <= one < other < clusters.len(),
        !limit.less(spread(distances, clusters[one], clusters[other])),
    ensures
        !limit.less(spread(distances, clusters[left], clusters[right])),
        spread(distances, clusters[left], clusters[right]).place() <= spread(
            distances,
            clusters[one],
            clusters[other],
        ).place(),
{
    let best = merge_key(distances, clusters[left], clusters[right]);
    let key = merge_key(distances, clusters[one], clusters[other]);
    assert(!key_before(key, best));
    assert(best[0] == spread(distances, clusters[left], clusters[right]).place());
    assert(key[0] == spread(distances, clusters[one], clusters[other]).place());
}

/// A rendering is usable exactly where there is one, it stands above the subdued tone, and it
/// stands apart from every fixed color for normal and for color-deficient eyes.
pub proof fn lemma_usable_renderings(
    rendering: Option<Rendering>,
    saliency: Scalar,
    floor: SeparationFloor,
)
    ensures
        is_usable(rendering, saliency, floor) <==> {
            &&& rendering is Some
            &&& saliency.at_most(rendering->0.saliency)
            &&& forall|i: int|
                0 <= i < rendering->0.fixed@.len() ==> !(
                #[trigger] rendering->0.fixed@[i]).normal.less(floor.normal)
                    && !rendering->0.fixed@[i].cvd.less(floor.cvd)
        },
{
}

/// Whether the forest has a family with the anchor, the source preference and the
/// saliencies, under the family with the anchor `parent`, or as a trunk.
pub open spec fn grows(
    families: Seq<FamilyView>,
    anchor: SemanticRole,
    preference: SemanticRole,
    parent: Option<SemanticRole>,
    fallback_saliency: u16,
    parent_saliency_delta: u16,
) -> bool {
    exists|i: int|
        {
            &&& 0 <= i < families.len()
            &&& (#[trigger] families[i]).anchor == anchor
            &&& families[i].source_preference == preference
            &&& families[i].roles == seq![anchor]
            &&& families[i].fallback_saliency == fallback_saliency
            &&& families[i].parent_saliency_delta == parent_saliency_delta
            &&& match parent {
                Some(role) => families[i].parent matches Some(at) && at < i
                    && families[at as int].anchor == role,
                None => families[i].parent is None,
            }
        }
}

/// One hue supports strings and the values among them; a second hue types, the calls among
/// them and the members among the calls; a third one control flow. More hues support no
/// more.
pub proof fn lemma_hues_support_families(hues: int)
    ensures
        ({
            let families = forest_families(hues);
            &&& grows(families, SemanticRole::String, SemanticRole::String, None, 780, 0)
            &&& grows(
                families,
                SemanticRole::Value,
                SemanticRole::Value,
                Some(SemanticRole::String),
                900,
                120,
            )
            &&& hues >= 2 ==> grows(
                families,
                SemanticRole::Type,
                SemanticRole::Callable,
                None,
                900,
                0,
            ) && grows(
                families,
                SemanticRole::Callable,
                SemanticRole::Callable,
                Some(SemanticRole::Type),
                780,
                120,
            ) && grows(
                families,
                SemanticRole::Member,
                SemanticRole::Member,
                Some(SemanticRole::Callable),
                680,
                100,
            )
            &&& hues >= 3 ==> grows(
                families,
                SemanticRole::Control,
                SemanticRole::Control,
                None,
                900,
                0,
            )
            &&& families.len() == if hues <= 1 {
                2int
            } else if hues == 2 {
                5
            } else {
                6
            }
        }),
{
    let families = forest_families(hues);
    assert(families[0].anchor == SemanticRole::String);
    if hues <= 1 {
        assert(families[1].anchor == SemanticRole::Value);
    } else if hues == 2 {
        assert(families[1].anchor == SemanticRole::Type);
        assert(families[2].anchor == SemanticRole::Value);
        assert(families[3].anchor == SemanticRole::Callable);
        assert(families[4].anchor == SemanticRole::Member);
    } else {
        assert(families[1].anchor == SemanticRole::Type);
        assert(families[2].anchor == SemanticRole::Control);
        assert(families[3].anchor == SemanticRole::Value);
        assert(families[4].anchor == SemanticRole::Callable);
        assert(families[5].anchor == SemanticRole::Member);
    }
}

/// A family that is kept colors its own role, and takes over the roles of the refinements
/// that are not kept: strings the values, types the calls and members, calls the members.
pub proof fn lemma_kept_family_takes_over(
    hues: int,
    active: Set<usize>,
    position: int,
    role: SemanticRole,
)
    requires
        0 <= position < forest_families(hues).len(),
    ensures
        ({
            let families = forest_families(hues);
            let anchor = families[position].anchor;
            let kept = activated(families, active, position);
            &&& kept.anchor == anchor
            &&& kept.roles.contains(anchor)
            &&& role != anchor && kept.roles.contains(role) <==> {
                ||| anchor == SemanticRole::String && role == SemanticRole::Value && !anchor_active(
                    families,
                    active,
                    SemanticRole::Value,
                )
                ||| anchor == SemanticRole::Type && (role == SemanticRole::Callable || role
                    == SemanticRole::Member) && !anchor_active(
                    families,
                    active,
                    SemanticRole::Callable,
                )
                ||| anchor == SemanticRole::Callable && role == SemanticRole::Member
                    && !anchor_active(families, active, SemanticRole::Member)
            }
        }),
{
    let families = forest_families(hues);
    let kept = activated(families, active, position);
    let anchor = families[position].anchor;
    assert(families[position].roles =~= seq![anchor]);
    assert(kept.roles[0] == anchor);
    if anchor == SemanticRole::String && role == SemanticRole::Value && !anchor_active(
        families,
        active,
        SemanticRole::Value,
    ) {
        assert(kept.roles[1] == role);
    }
    if anchor == SemanticRole::Type && !anchor_active(families, active, SemanticRole::Callable) {
        assert(kept.roles[1] == SemanticRole::Callable && kept.roles[2] == SemanticRole::Member);
    }
    if anchor == SemanticRole::Callable && !anchor_active(families, active, SemanticRole::Member) {
        assert(kept.roles[1] == SemanticRole::Member);
    }
}

/// Text, names, control flow and changes stand out most, strings and links less, and
/// metadata, comments and predictions least.
pub proof fn lemma_tone_bands()
    ensures
        SemanticRole::Base.tone_band_view() == ToneBand::Primary,
        SemanticRole::Callable.tone_band_view() == ToneBand::Primary,
        SemanticRole::Type.tone_band_view() == ToneBand::Primary,
        SemanticRole::Member.tone_band_view() == ToneBand::Primary,
        SemanticRole::Control.tone_band_view() == ToneBand::Primary,
        SemanticRole::Value.tone_band_view() == ToneBand::Primary,
        SemanticRole::DiffChange.tone_band_view() == ToneBand::Primary,
        SemanticRole::DiffAdd.tone_band_view() == ToneBand::Primary,
        SemanticRole::DiffDelete.tone_band_view() == ToneBand::Primary,
        SemanticRole::String.tone_band_view() == ToneBand::Secondary,
        SemanticRole::Link.tone_band_view() == ToneBand::Secondary,
        SemanticRole::Metadata.tone_band_view() == ToneBand::Subdued,
        SemanticRole::Subdued.tone_band_view() == ToneBand::Subdued,
        SemanticRole::Predictive.tone_band_view() == ToneBand::Subdued,
        ToneBand::Primary.saliency_view() == 900,
        ToneBand::Secondary.saliency_view() == 750,
        ToneBand::Subdued.saliency_view() == 550,
        ToneBand::Primary.single_hue_saliency_view() == 1000,
        ToneBand::Secondary.single_hue_saliency_view() == 650,
        ToneBand::Subdued.single_hue_saliency_view() == 400,
{
}

proof fn lemma_uncolored(families: Seq<FamilyView>, roles: Seq<SemanticRole>)
    ensures
        forall|role: SemanticRole| #[trigger]
            uncolored(families, roles).contains(role) <==> roles.contains(role) && forall|i: int|
                0 <= i < families.len() ==> !(#[trigger] families[i]).roles.contains(role),
    decreases roles.len(),
{
    let found = uncolored(families, roles);
    if roles.len() > 0 {
        let shorter = roles.drop_last();
        let earlier = uncolored(families, shorter);
        lemma_uncolored(families, shorter);
        assert forall|role: SemanticRole| #[trigger] found.contains(role) <==> roles.contains(role)
            && forall|i: int|
            0 <= i < families.len() ==> !(#[trigger] families[i]).roles.contains(role) by {
            assert(earlier.contains(role) <==> shorter.contains(role) && forall|i: int|
                0 <= i < families.len() ==> !(#[trigger] families[i]).roles.contains(role));
            if found.contains(role) {
                let at = choose|i: int| 0 <= i < found.len() && found[i] == role;
                if at < earlier.len() {
                    assert(earlier[at] == role);
                    let from = choose|i: int| 0 <= i < shorter.len() && shorter[i] == role;
                    assert(roles[from] == role);
                } else {
                    assert(roles[roles.len() - 1] == role);
                    assert(!is_colored(families, role));
                }
            }
            if roles.contains(role) {
                let at = choose|i: int| 0 <= i < roles.len() && roles[i] == role;
                if at < shorter.len() {
                    assert(shorter[at] == role);
                }
            }
            if earlier.contains(role) {
                let at = choose|i: int| 0 <= i < earlier.len() && earlier[i] == role;
                assert(found[at] == role);
            }
            if found.len() > earlier.len() {
                assert(found[earlier.len() as int] == roles.last());
            }
        }
    }
}

/// Exactly the ordinary roles that no family colors are reported as inactive; metadata
/// falls back to the subdued color and every other role to the base color.
pub proof fn lemma_inactive_roles(families: Seq<FamilyView>, role: SemanticRole)
    ensures
        uncolored(families, ORDINARY_ROLES@).contains(role) <==> {
            &&& role != SemanticRole::Base && role != SemanticRole::Subdued && role
                != SemanticRole::Predictive && role != SemanticRole::DiffChange && role
                != SemanticRole::DiffAdd && role != SemanticRole::DiffDelete
            &&& forall|i: int|
                0 <= i < families.len() ==> !(#[trigger] families[i]).roles.contains(role)
        },
        stand_in(SemanticRole::Metadata) == SemanticRole::Subdued,
        role != SemanticRole::Metadata ==> stand_in(role) == SemanticRole::Base,
{
    lemma_uncolored(families, ORDINARY_ROLES@);
    let roles = ORDINARY_ROLES@;
    assert(roles[0] == SemanticRole::Callable && roles[1] == SemanticRole::Type);
    assert(roles[2] == SemanticRole::Member && roles[3] == SemanticRole::Control);
    assert(roles[4] == SemanticRole::Value && roles[5] == SemanticRole::String);
    assert(roles[6] == SemanticRole::Metadata && roles[7] == SemanticRole::Link);
    if roles.contains(role) {
        let at = choose|i: int| 0 <= i < roles.len() && roles[i] == role;
        assert(0 <= at < 8);
    }
}

/// How the roles are named in a report.
pub proof fn lemma_role_names()
    ensures
        SemanticRole::Base.name() == "base"@,
        SemanticRole::Subdued.name() == "subdued"@,
        SemanticRole::Predictive.name() == "predictive"@,
        SemanticRole::Callable.name() == "callable"@,
        SemanticRole::Type.name() == "type"@,
        SemanticRole::Member.name() == "member"@,
        SemanticRole::Control.name() == "control"@,
        SemanticRole::Value.name() == "value"@,
        SemanticRole::String.name() == "string"@,
        SemanticRole::Metadata.name() == "metadata"@,
        SemanticRole::Link.name() == "link"@,
        SemanticRole::DiffChange.name() == "diff_change"@,
        SemanticRole::DiffAdd.name() == "diff_add"@,
        SemanticRole::DiffDelete.name() == "diff_delete"@,
        ToneBand::Primary.name() == "primary"@,
        ToneBand::Secondary.name() == "secondary"@,
        ToneBand::Subdued.name() == "subdued"@,
{
}

/// Base text and changes aim at the whole reference contrast, and every other role at the
/// share of its tone.
pub proof fn lemma_role_saliency(role: SemanticRole, thousandths: u16)
    requires
        call_ensures(SemanticRole::saliency, (role,), thousandths),
    ensures
        role == SemanticRole::Base || role == SemanticRole::DiffChange || role
            == SemanticRole::DiffAdd || role == SemanticRole::DiffDelete ==> thousandths == 1000,
        role == SemanticRole::Callable || role == SemanticRole::Type || role
            == SemanticRole::Member || role == SemanticRole::Control || role
            == SemanticRole::Value ==> thousandths == 900,
        role == SemanticRole::String || role == SemanticRole::Link ==> thousandths == 750,
        role == SemanticRole::Metadata || role == SemanticRole::Subdued || role
            == SemanticRole::Predictive ==> thousandths == 550,
{
}

/// A report names a family, its anchor, the role whose sources it prefers, its roles, its
/// parent, its saliencies and the tone of its anchor.
pub proof fn lemma_reported_family(audit: FamilyAudit, family: FamilyView, id: int)
    requires
        reports_family(audit, family, id),
    ensures
        audit.id == id,
        audit.name@ == family.name,
        audit.anchor@ == family.anchor.name(),
        audit.source_preference@ == family.source_preference.name(),
        audit.roles@.len() == family.roles.len(),
        forall|i: int|
            0 <= i < family.roles.len() ==> (#[trigger] audit.roles@[i])@ == family.roles[i].name(),
        audit.parent == family.parent,
        audit.fallback_saliency == family.fallback_saliency,
        audit.parent_saliency_delta == family.parent_saliency_delta,
        family.anchor == SemanticRole::String ==> audit.tone_band@ == "secondary"@,
        family.anchor == SemanticRole::Type || family.anchor == SemanticRole::Callable
            || family.anchor == SemanticRole::Member || family.anchor == SemanticRole::Control
            || family.anchor == SemanticRole::Value ==> audit.tone_band@ == "primary"@,
{
}

/// A family that keeps its refinements to itself has their name, and one whose refinement is
/// kept has its own: data or strings, symbols or types, runtime symbols or calls.
pub proof fn lemma_kept_family_is_named(hues: int, active: Set<usize>, position: int)
    requires
        0 <= position < forest_families(hues).len(),
    ensures
        ({
            let families = forest_families(hues);
            let anchor = families[position].anchor;
            let name = activated(families, active, position).name;
            let values = anchor_active(families, active, SemanticRole::Value);
            let calls = anchor_active(families, active, SemanticRole::Callable);
            let members = anchor_active(families, active, SemanticRole::Member);
            &&& anchor == SemanticRole::String && values ==> name == "string"@
            &&& anchor == SemanticRole::String && !values ==> name == "data"@
            &&& anchor == SemanticRole::Type && calls ==> name == "type"@
            &&& anchor == SemanticRole::Type && !calls ==> name == "symbol"@
            &&& anchor == SemanticRole::Callable && members ==> name == "callable"@
            &&& anchor == SemanticRole::Callable && !members ==> name == "runtime_symbol"@
            &&& anchor == SemanticRole::Control ==> name == "control"@
            &&& anchor == SemanticRole::Value ==> name == "value"@
            &&& anchor == SemanticRole::Member ==> name == "member"@
        }),
{
}

proof fn lemma_few_are_active(active: Set<usize>, count: nat)
    ensures
        active_positions(active, count).len() <= count,
    decreases count,
{
    if count > 0 {
        lemma_few_are_active(active, (count - 1) as nat);
    }
}

proof fn lemma_active_place(active: Set<usize>, count: nat, position: nat)
    requires
        position < count <= usize::MAX,
        active.contains(position as usize),
    ensures
        ({
            let place = active_positions(active, position).len() as int;
            &&& place <= position
            &&& place < active_positions(active, count).len()
            &&& active_positions(active, count)[place] == position
        }),
    decreases count,
{
    lemma_few_are_active(active, position);
    if position + 1 < count {
        lemma_active_place(active, (count - 1) as nat, position);
    }
}

/// In a plan the parent of a family is the family that its parent became.
pub proof fn lemma_parents_are_kept(hues: int, active: Set<usize>, position: int)
    requires
        0 <= position < forest_families(hues).len(),
        forest_families(hues)[position].parent matches Some(parent) && active.contains(parent),
    ensures
        ({
            let families = forest_families(hues);
            let plan = activated_families(families, active);
            activated(families, active, position).parent matches Some(parent) && parent < plan.len()
                && plan[parent as int].anchor
                == families[families[position].parent->0 as int].anchor
        }),
{
    let families = forest_families(hues);
    let parent = families[position].parent->0;
    assert(parent < families.len());
    lemma_active_place(active, families.len(), parent as nat);
    let place = active_positions(active, parent as nat).len() as int;
    let plan = activated_families(families, active);
    assert(activated(families, active, position).parent == Some(place as usize));
    assert(plan[place] == activated(families, active, parent as int));
}

proof fn lemma_list_fault(label: Seq<char>, values: Seq<Seq<char>>, from: int)
    requires
        0 <= from <= values.len(),
    ensures
        list_fault(label, values, from) is None <==> forall|i: int|
            from <= i < values.len() ==> is_opaque_hex(#[trigger] values[i]),
    decreases values.len() - from,
{
    if from < values.len() {
        lemma_list_fault(label, values, from + 1);
    }
}

/// Whether every text is a color without transparency.
pub open spec fn are_opaque(texts: Seq<Seq<char>>) -> bool {
    forall|i: int| 0 <= i < texts.len() ==> is_opaque_hex(#[trigger] texts[i])
}

/// Syntax is made from a valid palette, with contexts on both sides, and colors without
/// transparency; nothing else is refused.
pub proof fn lemma_accepted_syntax_inputs(
    palette: ResolvedPalette,
    ordinary: Seq<Seq<char>>,
    rendered: Seq<Seq<char>>,
    saliency_reference: Seq<char>,
    predictive: Seq<char>,
    diff_sources: Seq<Seq<char>>,
)
    ensures
        syntax_input_fault(
            palette,
            ordinary,
            rendered,
            saliency_reference,
            predictive,
            diff_sources,
        ) is None <==> {
            &&& palette.fault() is None
            &&& ordinary.len() > 0 && rendered.len() > 0
            &&& is_opaque_hex(saliency_reference)
            &&& is_opaque_hex(predictive)
            &&& are_opaque(diff_sources)
            &&& are_opaque(ordinary)
            &&& are_opaque(rendered)
        },
{
    lemma_list_fault("diff source"@, diff_sources, 0);
    lemma_list_fault("ordinary syntax context"@, ordinary, 0);
    lemma_list_fault("rendered syntax context"@, rendered, 0);
}

} // verus!
