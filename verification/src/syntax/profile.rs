//! Measures the syntax character of an authored palette.
//!
//! Hue clusters describe breadth; each authored color supplies its own intensity.
//! Provenance decides which normal and bright slots are evidence.

use crate::color::normalize_hex;
use crate::order::{
    before, key_before, key_views, is_stable_order, lemma_key_total, lemma_key_transitive,
    stable_order,
};
use crate::palette::{color_fault, missing_keys, text_values, Provenance, ResolvedPalette};
use crate::scalar::Scalar;
use crate::text::{
    comes_before, lemma_text_order_total, lemma_text_order_transitive, lowered, same_text,
    slice_views, text_before,
};
use crate::Result;
use vstd::prelude::*;

verus! {

/// The palette keys whose colors are evidence, in order of priority.
pub const EVIDENCE_KEYS: [&'static str; 15] = [
    "green",
    "blue",
    "magenta",
    "yellow",
    "red",
    "cyan",
    "orange",
    "accent",
    "brown",
    "bright_green",
    "bright_blue",
    "bright_magenta",
    "bright_yellow",
    "bright_red",
    "bright_cyan",
];

/// The lowest chroma that counts as a hue, in thousandths.
pub const CHROMA_EVIDENCE: u32 = 25;

/// The widest hue difference within a cluster, in degrees.
pub const HUE_CLUSTER_DEGREES: u32 = 35;

/// The chroma envelope of a palette without evidence, in thousandths.
pub const NEUTRAL_MAXIMUM_CHROMA: u32 = 55;

/// One authored color and the keys that set it.
#[derive(Clone, Debug)]
pub struct EvidenceGroup {
    pub value: String,
    pub keys: Vec<&'static str>,
}

/// One authored color with its measured lightness, chroma and hue.
#[derive(Clone, Debug)]
pub struct EvidenceColor {
    pub value: String,
    pub keys: Vec<&'static str>,
    pub lightness: Scalar,
    pub chroma: Scalar,
    pub hue: Scalar,
}

/// Chromatic evidence of one hue family.
#[derive(Clone, Debug)]
pub struct HueCluster {
    pub members: Vec<usize>,
    pub representative: usize,
}

#[derive(Clone, Copy, Debug)]
pub struct ChromaEnvelope {
    pub ordinary_maximum: Scalar,
}

/// What a palette's authored colors say about syntax.
#[derive(Clone, Debug)]
pub struct SyntaxProfile {
    pub chroma_envelope: ChromaEnvelope,
    pub evidence: Vec<EvidenceColor>,
    pub clusters: Vec<HueCluster>,
}

/// The evidence keys in their fixed order.
pub open spec fn evidence_keys() -> Seq<Seq<char>> {
    slice_views(EVIDENCE_KEYS@)
}

/// Whether the palette authored the color under `key` with this canonical value.
pub open spec fn authored_as(palette: ResolvedPalette, key: Seq<char>, value: Seq<char>) -> bool {
    palette.provenance@[key] != Provenance::Derived && lowered(palette.colors@[key]@) == value
}

/// The keys among `keys` that are authored with this value, in order.
pub open spec fn keys_with(palette: ResolvedPalette, keys: Seq<Seq<char>>, value: Seq<char>) -> Seq<
    Seq<char>,
>
    decreases keys.len(),
{
    if keys.len() == 0 {
        Seq::empty()
    } else {
        let earlier = keys_with(palette, keys.drop_last(), value);
        if authored_as(palette, keys.last(), value) {
            earlier.push(keys.last())
        } else {
            earlier
        }
    }
}

/// Whether `groups` list each authored value once, ascending, with all of its keys.
pub open spec fn groups_evidence(
    palette: ResolvedPalette,
    keys: Seq<Seq<char>>,
    groups: Seq<EvidenceGroup>,
) -> bool {
    &&& forall|i: int, j: int|
        0 <= i < j < groups.len() ==> text_before(
            (#[trigger] groups[i]).value@,
            (#[trigger] groups[j]).value@,
        )
    &&& forall|i: int|
        0 <= i < groups.len() ==> slice_views((#[trigger] groups[i]).keys@) == keys_with(
            palette,
            keys,
            groups[i].value@,
        ) && groups[i].keys@.len() > 0
    &&& forall|value: Seq<char>|
        (#[trigger] keys_with(palette, keys, value)).len() > 0 ==> exists|i: int|
            0 <= i < groups.len() && (#[trigger] groups[i]).value@ == value
}

proof fn lemma_keys_with_push(
    palette: ResolvedPalette,
    keys: Seq<Seq<char>>,
    end: int,
    value: Seq<char>,
)
    requires
        0 <= end < keys.len(),
    ensures
        keys_with(palette, keys.take(end + 1), value) == if authored_as(palette, keys[end], value) {
            keys_with(palette, keys.take(end), value).push(keys[end])
        } else {
            keys_with(palette, keys.take(end), value)
        },
{
    assert(keys.take(end + 1).drop_last() =~= keys.take(end));
}

fn add_evidence(groups: &mut Vec<EvidenceGroup>, value: String, key: &'static str)
    requires
        forall|i: int, j: int|
            0 <= i < j < old(groups)@.len() ==> text_before(
                (#[trigger] old(groups)@[i]).value@,
                (#[trigger] old(groups)@[j]).value@,
            ),
    ensures
        forall|i: int, j: int|
            0 <= i < j < final(groups)@.len() ==> text_before(
                (#[trigger] final(groups)@[i]).value@,
                (#[trigger] final(groups)@[j]).value@,
            ),
        forall|i: int|
            0 <= i < final(groups)@.len() ==> {
                let group = #[trigger] final(groups)@[i];
                ||| group.value@ != value@ && exists|j: int|
                    0 <= j < old(groups)@.len() && #[trigger] old(groups)@[j] == group
                ||| group.value@ == value@ && slice_views(group.keys@) == seq![key@] && forall|
                    j: int,
                |
                    0 <= j < old(groups)@.len() ==> (#[trigger] old(groups)@[j]).value@ != value@
                ||| group.value@ == value@ && exists|j: int|
                    0 <= j < old(groups)@.len() && (#[trigger] old(groups)@[j]).value@ == value@
                        && slice_views(group.keys@) == slice_views(old(groups)@[j].keys@).push(key@)
            },
        forall|j: int|
            0 <= j < old(groups)@.len() ==> exists|i: int|
                0 <= i < final(groups)@.len() && (#[trigger] final(groups)@[i]).value@ == (
                #[trigger] old(groups)@[j]).value@,
        exists|i: int|
            0 <= i < final(groups)@.len() && (#[trigger] final(groups)@[i]).value@ == value@,
{
    let ghost start = groups@;
    let mut index: usize = 0;
    while index < groups.len() && comes_before(groups[index].value.as_str(), value.as_str())
        invariant
            groups@ == start,
            index <= start.len(),
            forall|i: int| 0 <= i < index ==> text_before((#[trigger] start[i]).value@, value@),
        decreases start.len() - index,
    {
        index += 1;
    }
    assert forall|i: int| index <= i < start.len() && start[index as int].value@ != value@ implies text_before(
        value@,
        (#[trigger] start[i]).value@,
    ) by {
        lemma_text_order_total(start[index as int].value@, value@);
        if i > index {
            lemma_text_order_transitive(value@, start[index as int].value@, start[i].value@);
        }
    }
    if index < groups.len() && same_text(groups[index].value.as_str(), value.as_str()) {
        let mut group = groups.remove(index);
        let ghost held = group;
        group.keys.push(key);
        assert(slice_views(group.keys@) =~= slice_views(held.keys@).push(key@));
        groups.insert(index, group);
        let ghost end = groups@;
        assert forall|i: int| 0 <= i < end.len() implies (#[trigger] end[i]).value@
            == start[i].value@ && (i != index ==> end[i] == start[i]) by {}
        assert forall|i: int, j: int| 0 <= i < j < end.len() implies text_before(
            (#[trigger] end[i]).value@,
            (#[trigger] end[j]).value@,
        ) by {
            assert(text_before(start[i].value@, start[j].value@));
        }
        assert forall|i: int| 0 <= i < end.len() && i != index implies (
        #[trigger] end[i]).value@ != value@ by {
            lemma_text_order_total(start[i].value@, value@);
            if i > index {
                assert(text_before(start[index as int].value@, start[i].value@));
                lemma_text_order_total(start[index as int].value@, start[i].value@);
            }
        }
        assert(start[index as int] == held);
        assert forall|j: int| 0 <= j < start.len() implies exists|i: int|
            0 <= i < end.len() && (#[trigger] end[i]).value@ == (#[trigger] start[j]).value@ by {
            assert(end[j].value@ == start[j].value@);
        }
        assert(end[index as int].value@ == value@);
    } else {
        assert forall|j: int| 0 <= j < start.len() implies (#[trigger] start[j]).value@ != value@ by {
            lemma_text_order_total(start[j].value@, value@);
        }
        let mut keys: Vec<&'static str> = Vec::new();
        keys.push(key);
        assert(slice_views(keys@) =~= seq![key@]);
        groups.insert(index, EvidenceGroup { value, keys });
        let ghost end = groups@;
        assert forall|i: int, j: int| 0 <= i < j < end.len() implies text_before(
            (#[trigger] end[i]).value@,
            (#[trigger] end[j]).value@,
        ) by {
            let left = if i < index { i } else { i - 1 };
            let right = if j < index { j } else { j - 1 };
            if i != index && j != index {
                assert(text_before(start[left].value@, start[right].value@));
            } else if i == index {
                assert(end[j] == start[right]);
            } else {
                assert(end[i] == start[left]);
            }
        }
        assert forall|i: int| 0 <= i < end.len() && i != index implies exists|j: int|
            0 <= j < start.len() && #[trigger] start[j] == #[trigger] end[i] by {
            let from = if i < index { i } else { i - 1 };
            assert(start[from] == end[i]);
        }
        assert forall|j: int| 0 <= j < start.len() implies exists|i: int|
            0 <= i < end.len() && (#[trigger] end[i]).value@ == (#[trigger] start[j]).value@ by {
            let to = if j < index { j } else { j + 1 };
            assert(end[to] == start[j]);
        }
        assert(end[index as int].value@ == value@);
    }
}

/// Groups the authored evidence colors of a palette by canonical value. Derived
/// colors are no evidence.
pub fn collect_evidence(palette: &ResolvedPalette) -> (result: Result<Vec<EvidenceGroup>>)
    ensures
        result is Ok <==> palette.fault_in(evidence_keys()) is None,
        result matches Ok(groups) ==> groups_evidence(*palette, evidence_keys(), groups@),
        result matches Err(error) ==> error.is_invalid(palette.fault_in(evidence_keys())->0),
{
    let ghost keys = evidence_keys();
    match palette.validate_keys(&EVIDENCE_KEYS) {
        Ok(()) => {},
        Err(error) => {
            return Err(error);
        },
    }
    proof {
        lemma_valid_keys(*palette, keys);
    }
    let mut groups: Vec<EvidenceGroup> = Vec::new();
    let mut index: usize = 0;
    while index < EVIDENCE_KEYS.len()
        invariant
            keys == evidence_keys(),
            keys.len() == EVIDENCE_KEYS@.len(),
            index <= keys.len(),
            palette.fault_in(keys) is None,
            forall|i: int|
                0 <= i < keys.len() ==> palette.colors@.contains_key(#[trigger] keys[i])
                    && palette.provenance@.contains_key(keys[i]) && crate::color::is_opaque_hex(
                    palette.colors@[keys[i]]@,
                ),
            groups_evidence(*palette, keys.take(index as int), groups@),
        decreases keys.len() - index,
    {
        let key = EVIDENCE_KEYS[index];
        assert(key@ == keys[index as int]);
        let ghost earlier = groups@;
        assert(palette.colors@.contains_key(keys[index as int]));
        if let (Some(color), Some(provenance)) = (
            palette.colors.get(key),
            palette.provenance.get(key),
        ) {
            let normalized = normalize_hex(color.as_str(), key);
            if let Ok(value) = normalized {
                let ghost shown = value@;
                if *provenance != Provenance::Derived {
                    add_evidence(&mut groups, value, key);
                    proof {
                        lemma_group_added(*palette, keys, index as int, earlier, groups@, shown);
                    }
                } else {
                    proof {
                        assert forall|value: Seq<char>| #[trigger]
                            keys_with(*palette, keys.take(index as int + 1), value) == keys_with(
                            *palette,
                            keys.take(index as int),
                            value,
                        ) by {
                            lemma_keys_with_push(*palette, keys, index as int, value);
                        }
                    }
                }
            }
        }
        index += 1;
    }
    assert(keys.take(index as int) =~= keys);
    Ok(groups)
}

proof fn lemma_group_added(
    palette: ResolvedPalette,
    keys: Seq<Seq<char>>,
    end: int,
    earlier: Seq<EvidenceGroup>,
    groups: Seq<EvidenceGroup>,
    value: Seq<char>,
)
    requires
        0 <= end < keys.len(),
        authored_as(palette, keys[end], value),
        groups_evidence(palette, keys.take(end), earlier),
        forall|i: int, j: int|
            0 <= i < j < groups.len() ==> text_before(
                (#[trigger] groups[i]).value@,
                (#[trigger] groups[j]).value@,
            ),
        forall|i: int|
            0 <= i < groups.len() ==> {
                let group = #[trigger] groups[i];
                ||| group.value@ != value && exists|j: int|
                    0 <= j < earlier.len() && #[trigger] earlier[j] == group
                ||| group.value@ == value && slice_views(group.keys@) == seq![keys[end]] && forall|
                    j: int,
                |
                    0 <= j < earlier.len() ==> (#[trigger] earlier[j]).value@ != value
                ||| group.value@ == value && exists|j: int|
                    0 <= j < earlier.len() && (#[trigger] earlier[j]).value@ == value
                        && slice_views(group.keys@) == slice_views(earlier[j].keys@).push(keys[end])
            },
        forall|j: int|
            0 <= j < earlier.len() ==> exists|i: int|
                0 <= i < groups.len() && (#[trigger] groups[i]).value@ == (
                #[trigger] earlier[j]).value@,
        exists|i: int| 0 <= i < groups.len() && (#[trigger] groups[i]).value@ == value,
    ensures
        groups_evidence(palette, keys.take(end + 1), groups),
{
    assert forall|i: int| 0 <= i < groups.len() implies slice_views((#[trigger] groups[i]).keys@)
        == keys_with(
            palette,
            keys.take(end + 1),
            groups[i].value@,
        ) && groups[i].keys@.len() > 0 by {
        let group = groups[i];
        lemma_keys_with_push(palette, keys, end, group.value@);
        if group.value@ != value {
            let j = choose|j: int| 0 <= j < earlier.len() && #[trigger] earlier[j] == group;
            assert(
                slice_views(earlier[j].keys@) == keys_with(palette, keys.take(end), group.value@)
            );
        } else if exists|j: int| 0 <= j < earlier.len() && (#[trigger] earlier[j]).value@ == value {
            let j = choose|j: int|
                0 <= j < earlier.len() && (#[trigger] earlier[j]).value@ == value && slice_views(
                    group.keys@,
                ) == slice_views(earlier[j].keys@).push(keys[end]);
            assert(slice_views(earlier[j].keys@) == keys_with(palette, keys.take(end), value));
            assert(slice_views(group.keys@).len() == group.keys@.len());
        } else {
            assert(keys_with(palette, keys.take(end), value).len() == 0);
            assert(keys_with(palette, keys.take(end), value).push(keys[end]) =~= seq![keys[end]]);
            assert(slice_views(group.keys@).len() == group.keys@.len());
        }
    }
    assert forall|other: Seq<char>|
        (#[trigger] keys_with(palette, keys.take(end + 1), other)).len() > 0 implies exists|i: int|
        0 <= i < groups.len() && (#[trigger] groups[i]).value@ == other by {
        lemma_keys_with_push(palette, keys, end, other);
        if other != value {
            assert(keys_with(palette, keys.take(end), other).len() > 0);
            let j = choose|j: int| 0 <= j < earlier.len() && (#[trigger] earlier[j]).value@ == other;
            assert(earlier[j].value@ == other);
        }
    }
}

proof fn lemma_present(keys: Seq<Seq<char>>, present: Set<Seq<char>>)
    requires
        missing_keys(keys, present).len() == 0,
    ensures
        forall|i: int| 0 <= i < keys.len() ==> present.contains(#[trigger] keys[i]),
    decreases keys.len(),
{
    if keys.len() > 0 {
        let earlier = keys.drop_last();
        lemma_present(earlier, present);
        assert forall|i: int| 0 <= i < keys.len() implies present.contains(#[trigger] keys[i]) by {
            if i < earlier.len() {
                assert(earlier[i] == keys[i]);
            }
        }
    }
}

proof fn lemma_opaque_from(keys: Seq<Seq<char>>, colors: Map<Seq<char>, Seq<char>>, from: int)
    requires
        0 <= from <= keys.len(),
        color_fault(keys, colors, from) is None,
    ensures
        forall|i: int|
            from <= i < keys.len() ==> crate::color::is_opaque_hex(colors[#[trigger] keys[i]]),
    decreases keys.len() - from,
{
    if from < keys.len() {
        lemma_opaque_from(keys, colors, from + 1);
    }
}

proof fn lemma_valid_keys(palette: ResolvedPalette, keys: Seq<Seq<char>>)
    requires
        palette.fault_in(keys) is None,
    ensures
        forall|i: int|
            0 <= i < keys.len() ==> palette.colors@.contains_key(#[trigger] keys[i])
                && palette.provenance@.contains_key(keys[i]) && crate::color::is_opaque_hex(
                palette.colors@[keys[i]]@,
            ),
{
    let colors = text_values(palette.colors@);
    assert(colors.dom() =~= palette.colors@.dom());
    lemma_present(keys, colors.dom());
    lemma_present(keys, palette.provenance@.dom());
    lemma_opaque_from(keys, colors, 0);
    assert forall|i: int| 0 <= i < keys.len() implies palette.colors@.contains_key(
        #[trigger] keys[i],
    ) && palette.provenance@.contains_key(keys[i]) && crate::color::is_opaque_hex(
        palette.colors@[keys[i]]@,
    ) by {
        assert(colors[keys[i]] == palette.colors@[keys[i]]@);
    }
}

/// Two palettes that differ only in derived colors have the same evidence: the
/// keys behind every value agree.
pub proof fn lemma_derived_colors_are_no_evidence(
    left: ResolvedPalette,
    right: ResolvedPalette,
    keys: Seq<Seq<char>>,
    value: Seq<char>,
)
    requires
        forall|i: int|
            0 <= i < keys.len() ==> left.provenance@[#[trigger] keys[i]] == right.provenance@[keys[i]],
        forall|i: int|
            0 <= i < keys.len() && left.provenance@[keys[i]] != Provenance::Derived
                ==> left.colors@[#[trigger] keys[i]]@ == right.colors@[keys[i]]@,
    ensures
        keys_with(left, keys, value) == keys_with(right, keys, value),
    decreases keys.len(),
{
    if keys.len() > 0 {
        let earlier = keys.drop_last();
        assert forall|i: int| 0 <= i < earlier.len() implies left.provenance@[#[trigger] earlier[i]]
            == right.provenance@[earlier[i]] && (left.provenance@[earlier[i]]
            != Provenance::Derived ==> left.colors@[earlier[i]]@ == right.colors@[earlier[i]]@) by {
            assert(earlier[i] == keys[i]);
        }
        lemma_derived_colors_are_no_evidence(left, right, earlier, value);
        assert(keys.last() == keys[keys.len() - 1]);
    }
}

/// The hue differences between evidence colors.
pub open spec fn between(distances: Seq<Vec<Scalar>>, left: usize, right: usize) -> Scalar {
    distances[left as int]@[right as int]
}

/// Whether the table holds a difference for every two of `count` colors.
pub open spec fn is_table(distances: Seq<Vec<Scalar>>, count: nat) -> bool {
    &&& distances.len() == count
    &&& forall|i: int| 0 <= i < count ==> (#[trigger] distances[i])@.len() == count
}

/// The largest of `start` and the differences from `left` to `right`.
pub open spec fn row_spread(
    distances: Seq<Vec<Scalar>>,
    left: usize,
    right: Seq<usize>,
    start: Scalar,
) -> Scalar
    decreases right.len(),
{
    if right.len() == 0 {
        start
    } else {
        row_spread(distances, left, right.drop_last(), start).larger(
            between(distances, left, right.last()),
        )
    }
}

/// The largest difference between a member of `left` and one of `right`.
pub open spec fn spread(distances: Seq<Vec<Scalar>>, left: Seq<usize>, right: Seq<usize>) -> Scalar
    decreases left.len(),
{
    if left.len() == 0 {
        Scalar { bits: 0 }
    } else {
        row_spread(distances, left.last(), right, spread(distances, left.drop_last(), right))
    }
}

/// The members of both ascending lists, ascending.
pub open spec fn merged_members(left: Seq<usize>, right: Seq<usize>) -> Seq<usize>
    decreases left.len() + right.len(),
{
    if left.len() == 0 {
        right
    } else if right.len() == 0 {
        left
    } else if left[0] < right[0] {
        seq![left[0]] + merged_members(left.drop_first(), right)
    } else {
        seq![right[0]] + merged_members(left, right.drop_first())
    }
}

/// Whether two clusters stay within the limit when merged.
pub open spec fn can_merge(
    distances: Seq<Vec<Scalar>>,
    limit: Scalar,
    left: Seq<usize>,
    right: Seq<usize>,
) -> bool {
    !limit.less(spread(distances, left, right))
}

/// What merges are ordered by: the spread, then the joined members.
pub open spec fn merge_key(
    distances: Seq<Vec<Scalar>>,
    left: Seq<usize>,
    right: Seq<usize>,
) -> Seq<i64> {
    seq![spread(distances, left, right).place() as i64] + merged_members(left, right).map_values(
        |member: usize| member as i64,
    )
}

/// Whether merging `left` and `right` comes first among all merges that stay
/// within the limit.
pub open spec fn is_best_merge(
    distances: Seq<Vec<Scalar>>,
    limit: Scalar,
    clusters: Seq<Seq<usize>>,
    left: int,
    right: int,
) -> bool {
    &&& 0 <= left < right < clusters.len()
    &&& can_merge(distances, limit, clusters[left], clusters[right])
    &&& forall|l: int, r: int|
        0 <= l < r < clusters.len() && can_merge(
            distances,
            limit,
            #[trigger] clusters[l],
            #[trigger] clusters[r],
        ) ==> {
            &&& !key_before(
                merge_key(distances, clusters[l], clusters[r]),
                merge_key(distances, clusters[left], clusters[right]),
            )
            &&& l < left || (l == left && r < right) ==> key_before(
                merge_key(distances, clusters[left], clusters[right]),
                merge_key(distances, clusters[l], clusters[r]),
            )
        }
}

/// The clusters after merging two of them into the earlier place.
pub open spec fn joined_clusters(
    clusters: Seq<Seq<usize>>,
    left: int,
    right: int,
) -> Seq<Seq<usize>> {
    clusters.update(left, merged_members(clusters[left], clusters[right])).remove(right)
}

/// The clusters left when the best merge is made for as long as there is one.
pub open spec fn agglomerated(
    distances: Seq<Vec<Scalar>>,
    limit: Scalar,
    clusters: Seq<Seq<usize>>,
) -> Seq<Seq<usize>>
    decreases clusters.len(),
{
    if exists|left: int, right: int| is_best_merge(distances, limit, clusters, left, right) {
        let (left, right) = choose|left: int, right: int|
            is_best_merge(distances, limit, clusters, left, right);
        agglomerated(distances, limit, joined_clusters(clusters, left, right))
    } else {
        clusters
    }
}

/// One cluster for each position that is chromatic, ascending.
pub open spec fn single_clusters(chromatic: Seq<bool>) -> Seq<Seq<usize>>
    decreases chromatic.len(),
{
    if chromatic.len() == 0 {
        Seq::empty()
    } else {
        let earlier = single_clusters(chromatic.drop_last());
        if chromatic.last() {
            earlier.push(seq![(chromatic.len() - 1) as usize])
        } else {
            earlier
        }
    }
}

pub open spec fn ascending_members(members: Seq<usize>) -> bool {
    forall|i: int, j: int| 0 <= i < j < members.len() ==> #[trigger] members[i] < #[trigger] members[j]
}

/// Whether `clusters` split the chromatic positions into nonempty ascending lists.
pub open spec fn partitions(chromatic: Seq<bool>, clusters: Seq<Seq<usize>>) -> bool {
    &&& forall|c: int|
        0 <= c < clusters.len() ==> (#[trigger] clusters[c]).len() > 0 && ascending_members(
            clusters[c],
        )
    &&& forall|c: int, member: usize|
        0 <= c < clusters.len() && #[trigger] clusters[c].contains(member) ==> member
            < chromatic.len() && chromatic[member as int]
    &&& forall|c: int, d: int, member: usize|
        0 <= c < clusters.len() && 0 <= d < clusters.len() && #[trigger] clusters[c].contains(member)
            && #[trigger] clusters[d].contains(member) ==> c == d
    &&& forall|i: int|
        0 <= i < chromatic.len() && #[trigger] chromatic[i] ==> exists|c: int|
            0 <= c < clusters.len() && (#[trigger] clusters[c]).contains(i as usize)
}

proof fn lemma_merged(left: Seq<usize>, right: Seq<usize>)
    ensures
        forall|member: usize|
            #[trigger] merged_members(left, right).contains(member) <==> left.contains(member)
                || right.contains(member),
        merged_members(left, right).len() == left.len() + right.len(),
        ascending_members(left) && ascending_members(right) && (forall|member: usize|
            !(#[trigger] left.contains(member) && right.contains(member))) ==> ascending_members(
            merged_members(left, right),
        ),
    decreases left.len() + right.len(),
{
    let whole = merged_members(left, right);
    if left.len() > 0 && right.len() > 0 {
        let take_left = left[0] < right[0];
        let head = if take_left { left[0] } else { right[0] };
        let left_rest = if take_left { left.drop_first() } else { left };
        let right_rest = if take_left { right } else { right.drop_first() };
        let rest = merged_members(left_rest, right_rest);
        lemma_merged(left_rest, right_rest);
        assert(whole =~= seq![head] + rest);
        assert forall|member: usize| whole.contains(member) <==> left.contains(member)
            || right.contains(member) by {
            lemma_head_contains(whole, member);
            lemma_head_contains(left, member);
            lemma_head_contains(right, member);
            assert(whole.drop_first() =~= rest);
        }
        if ascending_members(left) && ascending_members(right) && (forall|member: usize|
            !(#[trigger] left.contains(member) && right.contains(member))) {
            assert forall|member: usize| !(#[trigger] left_rest.contains(member)
                && right_rest.contains(member)) by {
                lemma_head_contains(left, member);
                lemma_head_contains(right, member);
                assert(!(left.contains(member) && right.contains(member)));
            }
            assert(ascending_members(left_rest)) by {
                assert forall|i: int, j: int| 0 <= i < j < left_rest.len() implies #[trigger] left_rest[i]
                    < #[trigger] left_rest[j] by {
                    if take_left {
                        assert(left[i + 1] < left[j + 1]);
                    } else {
                        assert(left[i] < left[j]);
                    }
                }
            }
            assert(ascending_members(right_rest)) by {
                assert forall|i: int, j: int| 0 <= i < j < right_rest.len() implies #[trigger] right_rest[i]
                    < #[trigger] right_rest[j] by {
                    if take_left {
                        assert(right[i] < right[j]);
                    } else {
                        assert(right[i + 1] < right[j + 1]);
                    }
                }
            }
            assert forall|i: int| 0 <= i < rest.len() implies head < #[trigger] rest[i] by {
                assert(rest.contains(rest[i]));
                if left_rest.contains(rest[i]) {
                    let at = choose|k: int| 0 <= k < left_rest.len() && left_rest[k] == rest[i];
                    if take_left {
                        assert(left[0] < left[at + 1]);
                    } else {
                        assert(left.contains(left[0]) && right.contains(right[0]));
                        assert(left[0] != right[0]);
                        if at > 0 {
                            assert(left[0] < left[at]);
                        }
                    }
                } else {
                    let at = choose|k: int| 0 <= k < right_rest.len() && right_rest[k] == rest[i];
                    if take_left {
                        if at > 0 {
                            assert(right[0] < right[at]);
                        }
                    } else {
                        assert(right[0] < right[at + 1]);
                    }
                }
            }
            assert forall|i: int, j: int| 0 <= i < j < whole.len() implies #[trigger] whole[i]
                < #[trigger] whole[j] by {
                assert(whole[j] == rest[j - 1]);
                if i > 0 {
                    assert(whole[i] == rest[i - 1]);
                }
            }
        }
    }
}

proof fn lemma_head_contains(members: Seq<usize>, member: usize)
    ensures
        members.len() > 0 ==> (members.contains(member) <==> members[0] == member
            || members.drop_first().contains(member)),
{
    if members.len() > 0 {
        if members.contains(member) {
            let at = choose|i: int| 0 <= i < members.len() && members[i] == member;
            if at > 0 {
                assert(members.drop_first()[at - 1] == member);
            }
        }
        if members.drop_first().contains(member) {
            let at = choose|i: int|
                0 <= i < members.drop_first().len() && members.drop_first()[i] == member;
            assert(members[at + 1] == member);
        }
    }
}

proof fn lemma_joined_partition(
    chromatic: Seq<bool>,
    clusters: Seq<Seq<usize>>,
    left: int,
    right: int,
)
    requires
        partitions(chromatic, clusters),
        0 <= left < right < clusters.len(),
    ensures
        partitions(chromatic, joined_clusters(clusters, left, right)),
{
    let after = joined_clusters(clusters, left, right);
    let whole = merged_members(clusters[left], clusters[right]);
    lemma_merged(clusters[left], clusters[right]);
    assert forall|member: usize| !(#[trigger] clusters[left].contains(member)
        && clusters[right].contains(member)) by {}
    let source = |c: int| if c < right { c } else { c + 1 };
    assert forall|c: int| 0 <= c < after.len() && c != left implies #[trigger] after[c]
        == clusters[source(c)] by {}
    assert(after[left] == whole);
    assert forall|c: int| 0 <= c < after.len() implies (#[trigger] after[c]).len() > 0
        && ascending_members(after[c]) by {
        if c != left {
            assert(clusters[source(c)].len() > 0);
        }
    }
    assert forall|c: int, member: usize|
        0 <= c < after.len() && #[trigger] after[c].contains(member) implies member < chromatic.len()
        && chromatic[member as int] by {
        if c != left {
            assert(clusters[source(c)].contains(member));
        }
    }
    assert forall|c: int, d: int, member: usize|
        0 <= c < after.len() && 0 <= d < after.len() && #[trigger] after[c].contains(member)
            && #[trigger] after[d].contains(member) implies c == d by {
        if c != left && d != left {
            assert(clusters[source(c)].contains(member) && clusters[source(d)].contains(member));
        } else if c != left {
            assert(clusters[source(c)].contains(member));
        } else if d != left {
            assert(clusters[source(d)].contains(member));
        }
    }
    assert forall|i: int| 0 <= i < chromatic.len() && #[trigger] chromatic[i] implies exists|c: int|
        0 <= c < after.len() && (#[trigger] after[c]).contains(i as usize) by {
        let c = choose|c: int|
            0 <= c < clusters.len() && (#[trigger] clusters[c]).contains(i as usize);
        if c == left || c == right {
            assert(after[left].contains(i as usize));
        } else if c < right {
            assert(after[c].contains(i as usize));
        } else {
            assert(after[c - 1] == clusters[c]);
            assert(after[c - 1].contains(i as usize));
        }
    }
}

proof fn lemma_single_partition(chromatic: Seq<bool>)
    requires
        chromatic.len() <= usize::MAX,
    ensures
        partitions(chromatic, single_clusters(chromatic)),
    decreases chromatic.len(),
{
    if chromatic.len() > 0 {
        let shorter = chromatic.drop_last();
        lemma_single_partition(shorter);
        let earlier = single_clusters(shorter);
        let clusters = single_clusters(chromatic);
        let last = (chromatic.len() - 1) as usize;
        assert forall|c: int| 0 <= c < earlier.len() implies #[trigger] clusters[c]
            == earlier[c] by {}
        if chromatic.last() {
            assert(clusters[earlier.len() as int] == seq![last]);
            assert(seq![last].contains(last)) by {
                assert(seq![last][0] == last);
            }
        }
        assert forall|c: int| 0 <= c < clusters.len() implies (#[trigger] clusters[c]).len() > 0
            && ascending_members(clusters[c]) by {
            if c < earlier.len() {
                assert(earlier[c].len() > 0);
            }
        }
        assert forall|c: int, member: usize|
            0 <= c < clusters.len() && #[trigger] clusters[c].contains(member) implies member
            < chromatic.len() && chromatic[member as int] by {
            if c < earlier.len() {
                assert(earlier[c].contains(member));
                assert(shorter[member as int]);
            }
        }
        assert forall|c: int, d: int, member: usize|
            0 <= c < clusters.len() && 0 <= d < clusters.len() && #[trigger] clusters[c].contains(
                member,
            ) && #[trigger] clusters[d].contains(member) implies c == d by {
            if c < earlier.len() {
                assert(earlier[c].contains(member));
            }
            if d < earlier.len() {
                assert(earlier[d].contains(member));
            }
        }
        assert forall|i: int| 0 <= i < chromatic.len() && #[trigger] chromatic[i] implies exists|
            c: int,
        |
            0 <= c < clusters.len() && (#[trigger] clusters[c]).contains(i as usize) by {
            if i < shorter.len() {
                assert(shorter[i]);
                let c = choose|c: int|
                    0 <= c < earlier.len() && (#[trigger] earlier[c]).contains(i as usize);
                assert(clusters[c].contains(i as usize));
            } else {
                assert(clusters[earlier.len() as int].contains(last));
            }
        }
    }
}

/// What a vector of member lists holds.
pub open spec fn member_views(clusters: Seq<Vec<usize>>) -> Seq<Seq<usize>> {
    clusters.map_values(|members: Vec<usize>| members@)
}

fn spread_between(
    distances: &Vec<Vec<Scalar>>,
    left: &Vec<usize>,
    right: &Vec<usize>,
) -> (largest: Scalar)
    requires
        is_table(distances@, distances@.len()),
        forall|i: int| 0 <= i < left@.len() ==> (#[trigger] left@[i]) < distances@.len(),
        forall|i: int| 0 <= i < right@.len() ==> (#[trigger] right@[i]) < distances@.len(),
    ensures
        largest == spread(distances@, left@, right@),
{
    let mut largest = Scalar { bits: 0 };
    let mut first: usize = 0;
    while first < left.len()
        invariant
            is_table(distances@, distances@.len()),
            forall|i: int| 0 <= i < left@.len() ==> (#[trigger] left@[i]) < distances@.len(),
            forall|i: int| 0 <= i < right@.len() ==> (#[trigger] right@[i]) < distances@.len(),
            first <= left@.len(),
            largest == spread(distances@, left@.take(first as int), right@),
        decreases left@.len() - first,
    {
        let ghost start = largest;
        let row = left[first];
        assert(left@.take(first as int + 1).drop_last() =~= left@.take(first as int));
        let mut second: usize = 0;
        while second < right.len()
            invariant
                is_table(distances@, distances@.len()),
                row < distances@.len(),
                forall|i: int| 0 <= i < right@.len() ==> (#[trigger] right@[i]) < distances@.len(),
                second <= right@.len(),
                largest == row_spread(distances@, row, right@.take(second as int), start),
            decreases right@.len() - second,
        {
            assert(right@.take(second as int + 1).drop_last() =~= right@.take(second as int));
            assert(distances@[row as int]@.len() == distances@.len());
            largest = largest.max(distances[row][right[second]]);
            second += 1;
        }
        assert(right@.take(second as int) =~= right@);
        first += 1;
    }
    assert(left@.take(first as int) =~= left@);
    largest
}

fn merge_members(left: &Vec<usize>, right: &Vec<usize>) -> (members: Vec<usize>)
    ensures
        members@ == merged_members(left@, right@),
{
    let mut members: Vec<usize> = Vec::new();
    let mut first: usize = 0;
    let mut second: usize = 0;
    assert(left@.skip(0) =~= left@);
    assert(right@.skip(0) =~= right@);
    assert(
        members@ + merged_members(left@.skip(0), right@.skip(0)) =~= merged_members(left@, right@)
    );
    while first < left.len() || second < right.len()
        invariant
            first <= left@.len(),
            second <= right@.len(),
            members@ + merged_members(left@.skip(first as int), right@.skip(second as int))
                == merged_members(left@, right@),
        decreases left@.len() + right@.len() - first - second,
    {
        let ghost left_rest = left@.skip(first as int);
        let ghost right_rest = right@.skip(second as int);
        let ghost whole = merged_members(left_rest, right_rest);
        let ghost so_far = members@;
        if second >= right.len() || (first < left.len() && left[first] < right[second]) {
            members.push(left[first]);
            first += 1;
            assert(left_rest.drop_first() =~= left@.skip(first as int));
            proof {
                if right_rest.len() == 0 {
                    assert(whole =~= left_rest);
                    assert(merged_members(left@.skip(first as int), right_rest) =~= left@.skip(
                        first as int,
                    ));
                }
            }
            assert(whole =~= seq![left_rest[0]] + merged_members(
                left@.skip(first as int),
                right_rest,
            ));
        } else {
            members.push(right[second]);
            second += 1;
            assert(right_rest.drop_first() =~= right@.skip(second as int));
            proof {
                if left_rest.len() == 0 {
                    assert(whole =~= right_rest);
                }
            }
            assert(whole =~= seq![right_rest[0]] + merged_members(
                left_rest,
                right@.skip(second as int),
            ));
        }
        assert(members@ + merged_members(left@.skip(first as int), right@.skip(second as int))
            =~= so_far + whole);
    }
    assert(merged_members(left@.skip(first as int), right@.skip(second as int)) =~= Seq::<
        usize,
    >::empty());
    assert(members@ =~= merged_members(left@, right@));
    members
}

fn merge_key_of(largest: Scalar, members: &Vec<usize>) -> (key: Vec<i64>)
    requires
        forall|i: int| 0 <= i < members@.len() ==> (#[trigger] members@[i]) <= i64::MAX,
    ensures
        key@ == seq![largest.place() as i64] + members@.map_values(|member: usize| member as i64),
{
    let mut key: Vec<i64> = Vec::new();
    key.push(largest.key());
    let mut index: usize = 0;
    while index < members.len()
        invariant
            index <= members@.len(),
            forall|i: int| 0 <= i < members@.len() ==> (#[trigger] members@[i]) <= i64::MAX,
            key@ == seq![largest.place() as i64] + members@.take(index as int).map_values(
                |member: usize| member as i64,
            ),
        decreases members@.len() - index,
    {
        key.push(members[index] as i64);
        index += 1;
        assert(key@ =~= seq![largest.place() as i64] + members@.take(index as int).map_values(
            |member: usize| member as i64,
        ));
    }
    assert(members@.take(index as int) =~= members@);
    key
}

/// Whether `found` is the best merge among the pairs before `(left, right)`.
spec fn best_so_far(
    distances: Seq<Vec<Scalar>>,
    limit: Scalar,
    clusters: Seq<Seq<usize>>,
    found: Option<(usize, usize)>,
    left: int,
    right: int,
) -> bool {
    match found {
        None => forall|l: int, r: int|
            0 <= l < r < clusters.len() && (l < left || (l == left && r < right)) ==> !can_merge(
                distances,
                limit,
                #[trigger] clusters[l],
                #[trigger] clusters[r],
            ),
        Some((bl, br)) => {
            &&& bl < br < clusters.len()
            &&& bl < left || (bl == left && br < right)
            &&& can_merge(distances, limit, clusters[bl as int], clusters[br as int])
            &&& forall|l: int, r: int|
                0 <= l < r < clusters.len() && (l < left || (l == left && r < right)) && can_merge(
                    distances,
                    limit,
                    #[trigger] clusters[l],
                    #[trigger] clusters[r],
                ) ==> {
                    &&& !key_before(
                        merge_key(distances, clusters[l], clusters[r]),
                        merge_key(distances, clusters[bl as int], clusters[br as int]),
                    )
                    &&& l < bl || (l == bl && r < br) ==> key_before(
                        merge_key(distances, clusters[bl as int], clusters[br as int]),
                        merge_key(distances, clusters[l], clusters[r]),
                    )
                }
        },
    }
}

proof fn lemma_better_found(
    distances: Seq<Vec<Scalar>>,
    limit: Scalar,
    clusters: Seq<Seq<usize>>,
    found: Option<(usize, usize)>,
    left: int,
    right: int,
    replace: bool,
)
    requires
        0 <= left < right < clusters.len() <= usize::MAX,
        best_so_far(distances, limit, clusters, found, left, right),
        replace == (can_merge(
            distances,
            limit,
            clusters[left],
            clusters[right],
        ) && (found matches Some(
            best,
        ) ==> key_before(
            merge_key(distances, clusters[left], clusters[right]),
            merge_key(distances, clusters[best.0 as int], clusters[best.1 as int]),
        ))),
    ensures
        best_so_far(
            distances,
            limit,
            clusters,
            if replace { Some((left as usize, right as usize)) } else { found },
            left,
            right + 1,
        ),
{
    let key = merge_key(distances, clusters[left], clusters[right]);
    lemma_key_total(key, key);
    if replace {
        assert forall|l: int, r: int|
            0 <= l < r < clusters.len() && (l < left || (l == left && r < right + 1)) && can_merge(
                distances,
                limit,
                #[trigger] clusters[l],
                #[trigger] clusters[r],
            ) implies {
            &&& !key_before(merge_key(distances, clusters[l], clusters[r]), key)
            &&& l < left || (l == left && r < right) ==> key_before(
                key,
                merge_key(distances, clusters[l], clusters[r]),
            )
        } by {
            let other = merge_key(distances, clusters[l], clusters[r]);
            if l < left || r < right {
                let best = found->0;
                let current = merge_key(
                    distances,
                    clusters[best.0 as int],
                    clusters[best.1 as int],
                );
                lemma_key_total(other, current);
                if other != current {
                    lemma_key_transitive(key, current, other);
                }
                lemma_key_total(key, other);
            }
        }
    } else if let Some(best) = found {
        let current = merge_key(distances, clusters[best.0 as int], clusters[best.1 as int]);
        lemma_key_total(key, current);
    }
}

proof fn lemma_best_merge_unique(
    distances: Seq<Vec<Scalar>>,
    limit: Scalar,
    clusters: Seq<Seq<usize>>,
    left: int,
    right: int,
)
    requires
        is_best_merge(distances, limit, clusters, left, right),
    ensures
        agglomerated(distances, limit, clusters) == agglomerated(
            distances,
            limit,
            joined_clusters(clusters, left, right),
        ),
{
    let (l, r) = choose|l: int, r: int| is_best_merge(distances, limit, clusters, l, r);
    assert(is_best_merge(distances, limit, clusters, l, r));
    if l < left || (l == left && r < right) {
        assert(key_before(
            merge_key(distances, clusters[left], clusters[right]),
            merge_key(distances, clusters[l], clusters[r]),
        ));
        assert(can_merge(distances, limit, clusters[left], clusters[right]));
    } else if left < l || (left == l && right < r) {
        assert(key_before(
            merge_key(distances, clusters[l], clusters[r]),
            merge_key(distances, clusters[left], clusters[right]),
        ));
        assert(can_merge(distances, limit, clusters[l], clusters[r]));
    }
    assert(l == left && r == right);
}

/// Whether no two clusters can still be merged.
pub open spec fn is_settled(
    distances: Seq<Vec<Scalar>>,
    limit: Scalar,
    clusters: Seq<Seq<usize>>,
) -> bool {
    forall|l: int, r: int|
        0 <= l < r < clusters.len() ==> !can_merge(
            distances,
            limit,
            #[trigger] clusters[l],
            #[trigger] clusters[r],
        )
}

fn best_merge(
    distances: &Vec<Vec<Scalar>>,
    limit: Scalar,
    clusters: &Vec<Vec<usize>>,
) -> (found: Option<
    (usize, usize),
>)
    requires
        is_table(distances@, distances@.len()),
        distances@.len() <= i64::MAX,
        forall|c: int, i: int|
            0 <= c < clusters@.len() && 0 <= i < clusters@[c]@.len() ==> (
            #[trigger] clusters@[c]@[i]) < distances@.len(),
    ensures
        found is None ==> is_settled(distances@, limit, member_views(clusters@)),
        found matches Some(pair) ==> is_best_merge(
            distances@,
            limit,
            member_views(clusters@),
            pair.0 as int,
            pair.1 as int,
        ),
{
    let ghost all = member_views(clusters@);
    let count = clusters.len();
    let mut found: Option<(usize, usize)> = None;
    let mut found_key: Vec<i64> = Vec::new();
    let mut left: usize = 0;
    while left < count
        invariant
            all == member_views(clusters@),
            count == clusters@.len(),
            left <= count,
            is_table(distances@, distances@.len()),
            distances@.len() <= i64::MAX,
            forall|c: int, i: int|
                0 <= c < clusters@.len() && 0 <= i < clusters@[c]@.len() ==> (
                #[trigger] clusters@[c]@[i]) < distances@.len(),
            best_so_far(distances@, limit, all, found, left as int, left as int + 1),
            found matches Some(best) ==> found_key@ == merge_key(
                distances@,
                all[best.0 as int],
                all[best.1 as int],
            ),
        decreases count - left,
    {
        let mut right: usize = left + 1;
        while right < count
            invariant
                all == member_views(clusters@),
                count == clusters@.len(),
                left < count,
                left < right <= count,
                is_table(distances@, distances@.len()),
                distances@.len() <= i64::MAX,
                forall|c: int, i: int|
                    0 <= c < clusters@.len() && 0 <= i < clusters@[c]@.len() ==> (
                    #[trigger] clusters@[c]@[i]) < distances@.len(),
                best_so_far(distances@, limit, all, found, left as int, right as int),
                found matches Some(best) ==> found_key@ == merge_key(
                    distances@,
                    all[best.0 as int],
                    all[best.1 as int],
                ),
            decreases count - right,
        {
            assert(all[left as int] == clusters@[left as int]@);
            assert(all[right as int] == clusters@[right as int]@);
            let largest = spread_between(distances, &clusters[left], &clusters[right]);
            let mut replace = false;
            if !limit.is_below(largest) {
                let members = merge_members(&clusters[left], &clusters[right]);
                proof {
                    lemma_merged(all[left as int], all[right as int]);
                    assert forall|i: int| 0 <= i < members@.len() implies (#[trigger] members@[i])
                        <= i64::MAX by {
                        assert(members@.contains(members@[i]));
                        if all[left as int].contains(members@[i]) {
                            let at = choose|k: int|
                                0 <= k < all[left as int].len() && all[left as int][k] == members@[i];
                            assert(clusters@[left as int]@[at] < distances@.len());
                        } else {
                            let at = choose|k: int|
                                0 <= k < all[right as int].len() && all[right as int][k]
                                    == members@[i];
                            assert(clusters@[right as int]@[at] < distances@.len());
                        }
                    }
                }
                let key = merge_key_of(largest, &members);
                assert(key@ == merge_key(distances@, all[left as int], all[right as int]));
                replace = match found {
                    None => true,
                    Some(_) => before(&key, &found_key),
                };
                proof {
                    lemma_better_found(
                        distances@,
                        limit,
                        all,
                        found,
                        left as int,
                        right as int,
                        replace,
                    );
                }
                if replace {
                    found = Some((left, right));
                    found_key = key;
                }
            } else {
                proof {
                    lemma_better_found(
                        distances@,
                        limit,
                        all,
                        found,
                        left as int,
                        right as int,
                        false,
                    );
                }
            }
            right += 1;
        }
        left += 1;
    }
    found
}

/// Merges hue clusters, closest first, for as long as all members of a cluster
/// stay within the limit of each other.
pub fn complete_link_members(
    distances: &Vec<Vec<Scalar>>,
    limit: Scalar,
    chromatic: &Vec<bool>,
) -> (clusters: Vec<Vec<usize>>)
    requires
        is_table(distances@, chromatic@.len()),
        chromatic@.len() <= i64::MAX,
    ensures
        member_views(clusters@) == agglomerated(distances@, limit, single_clusters(chromatic@)),
        partitions(chromatic@, member_views(clusters@)),
        is_settled(distances@, limit, member_views(clusters@)),
{
    let mut clusters: Vec<Vec<usize>> = Vec::new();
    let mut index: usize = 0;
    assert(member_views(clusters@) =~= Seq::<Seq<usize>>::empty());
    while index < chromatic.len()
        invariant
            index <= chromatic@.len(),
            member_views(clusters@) == single_clusters(chromatic@.take(index as int)),
        decreases chromatic@.len() - index,
    {
        assert(chromatic@.take(index as int + 1).drop_last() =~= chromatic@.take(index as int));
        if chromatic[index] {
            let ghost so_far = member_views(clusters@);
            let mut members: Vec<usize> = Vec::new();
            members.push(index);
            assert(members@ =~= seq![index]);
            clusters.push(members);
            assert(member_views(clusters@) =~= so_far.push(seq![index]));
        }
        index += 1;
    }
    assert(chromatic@.take(index as int) =~= chromatic@);
    let ghost initial = single_clusters(chromatic@);
    proof {
        lemma_single_partition(chromatic@);
    }
    loop
        invariant
            is_table(distances@, chromatic@.len()),
            chromatic@.len() <= i64::MAX,
            partitions(chromatic@, member_views(clusters@)),
            agglomerated(distances@, limit, member_views(clusters@)) == agglomerated(
                distances@,
                limit,
                initial,
            ),
        ensures
            is_settled(distances@, limit, member_views(clusters@)),
        decreases clusters@.len(),
    {
        let ghost all = member_views(clusters@);
        assert forall|c: int, i: int|
            0 <= c < clusters@.len() && 0 <= i < clusters@[c]@.len() implies (
        #[trigger] clusters@[c]@[i]) < distances@.len() by {
            assert(all[c].contains(clusters@[c]@[i]));
        }
        match best_merge(distances, limit, &clusters) {
            None => {
                break;
            },
            Some((left, right)) => {
                proof {
                    lemma_best_merge_unique(distances@, limit, all, left as int, right as int);
                    lemma_joined_partition(chromatic@, all, left as int, right as int);
                }
                let members = merge_members(&clusters[left], &clusters[right]);
                clusters.set(left, members);
                clusters.remove(right);
                assert(member_views(clusters@) =~= joined_clusters(all, left as int, right as int));
            },
        }
    }
    assert(!exists|l: int, r: int|
        is_best_merge(distances@, limit, member_views(clusters@), l, r));
    clusters
}

/// Every difference within a cluster, in either direction, stays within the limit.
pub open spec fn within_limit(
    distances: Seq<Vec<Scalar>>,
    limit: Scalar,
    members: Seq<usize>,
) -> bool {
    forall|left: usize, right: usize|
        #[trigger] members.contains(left) && #[trigger] members.contains(right) && left != right
            ==> !limit.less(between(distances, left, right))
}

/// Whether the table is symmetric and holds numbers only.
pub open spec fn is_metric_table(distances: Seq<Vec<Scalar>>, count: nat) -> bool {
    &&& is_table(distances, count)
    &&& forall|i: usize, j: usize|
        i < count && j < count ==> #[trigger] between(distances, i, j) == between(distances, j, i)
            && !between(distances, i, j).is_nan_view()
}

proof fn lemma_row_spread(
    distances: Seq<Vec<Scalar>>,
    left: usize,
    right: Seq<usize>,
    start: Scalar,
)
    requires
        !start.is_nan_view(),
        forall|i: int|
            0 <= i < right.len() ==> !between(distances, left, #[trigger] right[i]).is_nan_view(),
    ensures
        !row_spread(distances, left, right, start).is_nan_view(),
        start.level() <= row_spread(distances, left, right, start).level(),
        forall|i: int|
            0 <= i < right.len() ==> between(distances, left, #[trigger] right[i]).level()
                <= row_spread(distances, left, right, start).level(),
        row_spread(distances, left, right, start) == start || exists|i: int|
            0 <= i < right.len() && row_spread(distances, left, right, start) == between(
                distances,
                left,
                #[trigger] right[i],
            ),
    decreases right.len(),
{
    if right.len() > 0 {
        let earlier = right.drop_last();
        assert forall|i: int| 0 <= i < earlier.len() implies !between(
            distances,
            left,
            #[trigger] earlier[i],
        ).is_nan_view() by {
            assert(earlier[i] == right[i]);
        }
        lemma_row_spread(distances, left, earlier, start);
        assert(right.last() == right[right.len() - 1]);
        assert(!between(distances, left, right[right.len() - 1]).is_nan_view());
        assert forall|i: int| 0 <= i < right.len() implies between(
            distances,
            left,
            #[trigger] right[i],
        ).level() <= row_spread(distances, left, right, start).level() by {
            if i < earlier.len() {
                assert(earlier[i] == right[i]);
            }
        }
        let inner = row_spread(distances, left, earlier, start);
        if row_spread(distances, left, right, start) == inner && inner != start {
            let at = choose|i: int|
                0 <= i < earlier.len() && inner == between(distances, left, #[trigger] earlier[i]);
            assert(earlier[at] == right[at]);
        }
    }
}

proof fn lemma_spread(distances: Seq<Vec<Scalar>>, left: Seq<usize>, right: Seq<usize>, count: nat)
    requires
        is_metric_table(distances, count),
        forall|i: int| 0 <= i < left.len() ==> (#[trigger] left[i]) < count,
        forall|i: int| 0 <= i < right.len() ==> (#[trigger] right[i]) < count,
    ensures
        !spread(distances, left, right).is_nan_view(),
        forall|i: int, j: int|
            0 <= i < left.len() && 0 <= j < right.len() ==> between(
                distances,
                #[trigger] left[i],
                #[trigger] right[j],
            ).level() <= spread(distances, left, right).level(),
        spread(distances, left, right) == (Scalar { bits: 0 }) || exists|i: int, j: int|
            0 <= i < left.len() && 0 <= j < right.len() && spread(distances, left, right)
                == between(distances, #[trigger] left[i], #[trigger] right[j]),
    decreases left.len(),
{
    if left.len() > 0 {
        let earlier = left.drop_last();
        assert forall|i: int| 0 <= i < earlier.len() implies (#[trigger] earlier[i]) < count by {
            assert(earlier[i] == left[i]);
        }
        lemma_spread(distances, earlier, right, count);
        let last = left[left.len() - 1];
        let inner = spread(distances, earlier, right);
        assert forall|i: int| 0 <= i < right.len() implies !between(
            distances,
            last,
            #[trigger] right[i],
        ).is_nan_view() by {
            assert(between(distances, last, right[i]) == between(distances, right[i], last));
        }
        lemma_row_spread(distances, last, right, inner);
        let whole = spread(distances, left, right);
        assert forall|i: int, j: int| 0 <= i < left.len() && 0 <= j < right.len() implies between(
            distances,
            #[trigger] left[i],
            #[trigger] right[j],
        ).level() <= whole.level() by {
            if i < earlier.len() {
                assert(earlier[i] == left[i]);
            }
        }
        if whole == inner {
            if inner != (Scalar { bits: 0 }) {
                let (i, j) = choose|i: int, j: int|
                    0 <= i < earlier.len() && 0 <= j < right.len() && inner == between(
                        distances,
                        #[trigger] earlier[i],
                        #[trigger] right[j],
                    );
                assert(earlier[i] == left[i]);
                assert(whole == between(distances, left[i], right[j]));
            }
        } else {
            let j = choose|j: int|
                0 <= j < right.len() && whole == between(distances, last, #[trigger] right[j]);
            assert(whole == between(distances, left[left.len() - 1], right[j]));
        }
    }
}

proof fn lemma_members_in_range(chromatic: Seq<bool>, clusters: Seq<Seq<usize>>, c: int)
    requires
        partitions(chromatic, clusters),
        0 <= c < clusters.len(),
    ensures
        forall|i: int| 0 <= i < clusters[c].len() ==> (#[trigger] clusters[c][i]) < chromatic.len(),
{
    assert forall|i: int| 0 <= i < clusters[c].len() implies (#[trigger] clusters[c][i])
        < chromatic.len() by {
        assert(clusters[c].contains(clusters[c][i]));
    }
}

proof fn lemma_join_within(
    distances: Seq<Vec<Scalar>>,
    limit: Scalar,
    chromatic: Seq<bool>,
    clusters: Seq<Seq<usize>>,
    left: int,
    right: int,
)
    requires
        is_metric_table(distances, chromatic.len()),
        partitions(chromatic, clusters),
        0 <= left < right < clusters.len(),
        can_merge(distances, limit, clusters[left], clusters[right]),
        within_limit(distances, limit, clusters[left]),
        within_limit(distances, limit, clusters[right]),
    ensures
        within_limit(distances, limit, merged_members(clusters[left], clusters[right])),
{
    lemma_merged(clusters[left], clusters[right]);
    lemma_members_in_range(chromatic, clusters, left);
    lemma_members_in_range(chromatic, clusters, right);
    lemma_spread(distances, clusters[left], clusters[right], chromatic.len());
    let whole = merged_members(clusters[left], clusters[right]);
    assert forall|x: usize, y: usize| #[trigger] whole.contains(x) && #[trigger] whole.contains(y) && x
        != y implies !limit.less(between(distances, x, y)) by {
        if clusters[left].contains(x) && clusters[right].contains(y) {
            let i = choose|i: int| 0 <= i < clusters[left].len() && clusters[left][i] == x;
            let j = choose|j: int| 0 <= j < clusters[right].len() && clusters[right][j] == y;
            assert(between(distances, clusters[left][i], clusters[right][j]).level() <= spread(
                distances,
                clusters[left],
                clusters[right],
            ).level());
        } else if clusters[right].contains(x) && clusters[left].contains(y) {
            let i = choose|i: int| 0 <= i < clusters[left].len() && clusters[left][i] == y;
            let j = choose|j: int| 0 <= j < clusters[right].len() && clusters[right][j] == x;
            assert(between(distances, clusters[left][i], clusters[right][j]).level() <= spread(
                distances,
                clusters[left],
                clusters[right],
            ).level());
            assert(between(distances, x, y) == between(distances, y, x));
        }
    }
}

proof fn lemma_agglomerated_within(
    distances: Seq<Vec<Scalar>>,
    limit: Scalar,
    chromatic: Seq<bool>,
    clusters: Seq<Seq<usize>>,
)
    requires
        is_metric_table(distances, chromatic.len()),
        partitions(chromatic, clusters),
        forall|c: int|
            0 <= c < clusters.len() ==> within_limit(distances, limit, #[trigger] clusters[c]),
    ensures
        forall|c: int|
            0 <= c < agglomerated(distances, limit, clusters).len() ==> within_limit(
                distances,
                limit,
                #[trigger] agglomerated(distances, limit, clusters)[c],
            ),
    decreases clusters.len(),
{
    if exists|left: int, right: int| is_best_merge(distances, limit, clusters, left, right) {
        let (left, right) = choose|left: int, right: int|
            is_best_merge(distances, limit, clusters, left, right);
        assert(is_best_merge(distances, limit, clusters, left, right));
        let after = joined_clusters(clusters, left, right);
        lemma_joined_partition(chromatic, clusters, left, right);
        lemma_join_within(distances, limit, chromatic, clusters, left, right);
        assert forall|c: int| 0 <= c < after.len() implies within_limit(
            distances,
            limit,
            #[trigger] after[c],
        ) by {
            if c != left {
                let from = if c < right { c } else { c + 1 };
                assert(after[c] == clusters[from]);
            }
        }
        lemma_agglomerated_within(distances, limit, chromatic, after);
        lemma_best_merge_unique(distances, limit, clusters, left, right);
    }
}

proof fn lemma_singles_within(distances: Seq<Vec<Scalar>>, limit: Scalar, chromatic: Seq<bool>)
    ensures
        forall|c: int|
            0 <= c < single_clusters(chromatic).len() ==> within_limit(
                distances,
                limit,
                #[trigger] single_clusters(chromatic)[c],
            ),
    decreases chromatic.len(),
{
    if chromatic.len() > 0 {
        lemma_singles_within(distances, limit, chromatic.drop_last());
        let earlier = single_clusters(chromatic.drop_last());
        let clusters = single_clusters(chromatic);
        assert forall|c: int| 0 <= c < clusters.len() implies within_limit(
            distances,
            limit,
            #[trigger] clusters[c],
        ) by {
            if c < earlier.len() {
                assert(clusters[c] == earlier[c]);
            }
        }
    }
}

/// Clustering is complete-link: all members of a cluster stay within the limit of
/// each other.
pub proof fn lemma_clusters_are_complete_link(
    distances: Seq<Vec<Scalar>>,
    limit: Scalar,
    chromatic: Seq<bool>,
    cluster: int,
)
    requires
        is_metric_table(distances, chromatic.len()),
        chromatic.len() <= usize::MAX,
        0 <= cluster < agglomerated(distances, limit, single_clusters(chromatic)).len(),
    ensures
        within_limit(
            distances,
            limit,
            agglomerated(distances, limit, single_clusters(chromatic))[cluster],
        ),
{
    lemma_single_partition(chromatic);
    lemma_singles_within(distances, limit, chromatic);
    lemma_agglomerated_within(distances, limit, chromatic, single_clusters(chromatic));
}

/// Two clusters that are left hold members farther apart than the limit.
pub proof fn lemma_settled_clusters_stand_apart(
    distances: Seq<Vec<Scalar>>,
    limit: Scalar,
    chromatic: Seq<bool>,
    clusters: Seq<Seq<usize>>,
    left: int,
    right: int,
)
    requires
        is_metric_table(distances, chromatic.len()),
        partitions(chromatic, clusters),
        is_settled(distances, limit, clusters),
        (Scalar { bits: 0 }).at_most(limit),
        0 <= left < right < clusters.len(),
    ensures
        exists|x: usize, y: usize|
            #[trigger] clusters[left].contains(x) && #[trigger] clusters[right].contains(y)
                && limit.less(between(distances, x, y)),
{
    lemma_members_in_range(chromatic, clusters, left);
    lemma_members_in_range(chromatic, clusters, right);
    lemma_spread(distances, clusters[left], clusters[right], chromatic.len());
    assert(!can_merge(distances, limit, clusters[left], clusters[right]));
    let (i, j) = choose|i: int, j: int|
        0 <= i < clusters[left].len() && 0 <= j < clusters[right].len() && spread(
            distances,
            clusters[left],
            clusters[right],
        ) == between(distances, #[trigger] clusters[left][i], #[trigger] clusters[right][j]);
    assert(clusters[left].contains(clusters[left][i]));
    assert(clusters[right].contains(clusters[right][j]));
}

/// The measured lightness, chroma and hue of a color.
#[derive(Clone, Copy, Debug)]
pub struct Measured {
    pub lightness: Scalar,
    pub chroma: Scalar,
    pub hue: Scalar,
}

/// Whether `evidence` lists the measured groups by hue, then by value.
pub open spec fn lists_evidence(
    groups: Seq<EvidenceGroup>,
    measured: Seq<Measured>,
    order: Seq<usize>,
    evidence: Seq<EvidenceColor>,
) -> bool {
    &&& evidence.len() == groups.len()
    &&& is_stable_order(
        measured.map_values(|color: Measured| seq![color.hue.place() as i64]),
        order,
    )
    &&& forall|i: int|
        0 <= i < evidence.len() ==> {
            let color = #[trigger] evidence[i];
            let from = order[i] as int;
            &&& color.value@ == groups[from].value@
            &&& slice_views(color.keys@) == slice_views(groups[from].keys@)
            &&& color.lightness == measured[from].lightness
            &&& color.chroma == measured[from].chroma
            &&& color.hue == measured[from].hue
        }
}

fn copy_keys(keys: &Vec<&'static str>) -> (copied: Vec<&'static str>)
    ensures
        copied@ == keys@,
{
    let mut copied: Vec<&'static str> = Vec::new();
    let mut index: usize = 0;
    while index < keys.len()
        invariant
            index <= keys@.len(),
            copied@ == keys@.take(index as int),
        decreases keys@.len() - index,
    {
        copied.push(keys[index]);
        index += 1;
        assert(copied@ =~= keys@.take(index as int));
    }
    assert(copied@ =~= keys@);
    copied
}

/// Joins the evidence groups with their measurements and orders them by hue;
/// equal hues keep the order of their values.
pub fn order_evidence(groups: &Vec<EvidenceGroup>, measured: &Vec<Measured>) -> (evidence: Vec<
    EvidenceColor,
>)
    requires
        groups@.len() == measured@.len(),
    ensures
        exists|order: Seq<usize>| lists_evidence(groups@, measured@, order, evidence@),
{
    let mut keys: Vec<Vec<i64>> = Vec::new();
    let mut index: usize = 0;
    let ghost wanted = measured@.map_values(|color: Measured| seq![color.hue.place() as i64]);
    while index < measured.len()
        invariant
            index <= measured@.len(),
            wanted == measured@.map_values(|color: Measured| seq![color.hue.place() as i64]),
            key_views(keys@) == wanted.take(index as int),
        decreases measured@.len() - index,
    {
        let ghost so_far = key_views(keys@);
        let mut key: Vec<i64> = Vec::new();
        key.push(measured[index].hue.key());
        assert(key@ =~= wanted[index as int]);
        keys.push(key);
        assert(key_views(keys@) =~= so_far.push(key@));
        index += 1;
        assert(key_views(keys@) =~= wanted.take(index as int));
    }
    assert(wanted.take(index as int) =~= wanted);
    let order = stable_order(&keys);
    let mut evidence: Vec<EvidenceColor> = Vec::new();
    let mut next: usize = 0;
    while next < order.len()
        invariant
            groups@.len() == measured@.len(),
            wanted == measured@.map_values(|color: Measured| seq![color.hue.place() as i64]),
            is_stable_order(wanted, order@),
            order@.len() == groups@.len(),
            next <= order@.len(),
            evidence@.len() == next,
            forall|i: int|
                0 <= i < evidence@.len() ==> {
                    let color = #[trigger] evidence@[i];
                    let from = order@[i] as int;
                    &&& color.value@ == groups@[from].value@
                    &&& slice_views(color.keys@) == slice_views(groups@[from].keys@)
                    &&& color.lightness == measured@[from].lightness
                    &&& color.chroma == measured@[from].chroma
                    &&& color.hue == measured@[from].hue
                },
        decreases order@.len() - next,
    {
        let from = order[next];
        assert(order@[next as int] < wanted.len());
        let group = &groups[from];
        let color = measured[from];
        evidence.push(
            EvidenceColor {
                value: group.value.clone(),
                keys: copy_keys(&group.keys),
                lightness: color.lightness,
                chroma: color.chroma,
                hue: color.hue,
            },
        );
        next += 1;
    }
    assert(lists_evidence(groups@, measured@, order@, evidence@));
    evidence
}

/// Whether `left` represents a cluster before `right`: the stronger chroma, then
/// the earlier value.
pub open spec fn represents_before(
    evidence: Seq<EvidenceColor>,
    left: usize,
    right: usize,
) -> bool {
    let first = evidence[left as int];
    let second = evidence[right as int];
    if first.chroma.place() != second.chroma.place() {
        first.chroma.place() > second.chroma.place()
    } else {
        text_before(first.value@, second.value@)
    }
}

/// Whether no member represents the cluster before `representative`.
pub open spec fn is_representative(
    evidence: Seq<EvidenceColor>,
    members: Seq<usize>,
    representative: usize,
) -> bool {
    &&& members.contains(representative)
    &&& forall|member: usize|
        #[trigger] members.contains(member) ==> !represents_before(evidence, member, representative)
}

fn better_representative(evidence: &Vec<EvidenceColor>, left: usize, right: usize) -> (better: bool)
    requires
        left < evidence@.len(),
        right < evidence@.len(),
    ensures
        better == represents_before(evidence@, left, right),
{
    let first = evidence[left].chroma.key();
    let second = evidence[right].chroma.key();
    if first != second {
        first > second
    } else {
        comes_before(evidence[left].value.as_str(), evidence[right].value.as_str())
    }
}

proof fn lemma_represents_transitive(
    evidence: Seq<EvidenceColor>,
    first: usize,
    second: usize,
    third: usize,
)
    requires
        represents_before(evidence, first, second),
        !represents_before(evidence, third, second),
    ensures
        !represents_before(evidence, third, first),
{
    let a = evidence[first as int];
    let b = evidence[second as int];
    let c = evidence[third as int];
    lemma_text_order_total(c.value@, b.value@);
    if text_before(c.value@, a.value@) && text_before(a.value@, b.value@) {
        lemma_text_order_transitive(c.value@, a.value@, b.value@);
    }
}

fn representative_of(evidence: &Vec<EvidenceColor>, members: &Vec<usize>) -> (representative: usize)
    requires
        members@.len() > 0,
        forall|i: int| 0 <= i < members@.len() ==> (#[trigger] members@[i]) < evidence@.len(),
    ensures
        is_representative(evidence@, members@, representative),
{
    let mut representative = members[0];
    let mut index: usize = 1;
    proof {
        lemma_text_order_total(
            evidence@[representative as int].value@,
            evidence@[representative as int].value@,
        );
    }
    while index < members.len()
        invariant
            1 <= index <= members@.len(),
            forall|i: int| 0 <= i < members@.len() ==> (#[trigger] members@[i]) < evidence@.len(),
            exists|i: int| 0 <= i < index && #[trigger] members@[i] == representative,
            representative < evidence@.len(),
            forall|i: int|
                0 <= i < index ==> !represents_before(
                    evidence@,
                    #[trigger] members@[i],
                    representative,
                ),
        decreases members@.len() - index,
    {
        let member = members[index];
        if better_representative(evidence, member, representative) {
            proof {
                assert forall|i: int| 0 <= i < index implies !represents_before(
                    evidence@,
                    #[trigger] members@[i],
                    member,
                ) by {
                    lemma_represents_transitive(evidence@, member, representative, members@[i]);
                }
                lemma_text_order_total(
                    evidence@[member as int].value@,
                    evidence@[member as int].value@,
                );
            }
            representative = member;
            assert(members@[index as int] == representative);
        }
        index += 1;
    }
    assert(members@.contains(representative));
    assert forall|member: usize| #[trigger] members@.contains(member) implies !represents_before(
        evidence@,
        member,
        representative,
    ) by {
        let at = choose|i: int| 0 <= i < members@.len() && members@[i] == member;
        assert(!represents_before(evidence@, members@[at], representative));
    }
    representative
}

/// What the clusters of a profile hold.
pub open spec fn cluster_views(clusters: Seq<HueCluster>) -> Seq<Seq<usize>> {
    clusters.map_values(|cluster: HueCluster| cluster.members@)
}

/// Whether `clusters` are exactly the `wanted` lists, each with its
/// representative, in ascending order of representatives.
pub open spec fn lists_clusters(
    evidence: Seq<EvidenceColor>,
    wanted: Seq<Seq<usize>>,
    clusters: Seq<HueCluster>,
) -> bool {
    &&& clusters.len() == wanted.len()
    &&& forall|i: int|
        0 <= i < clusters.len() ==> is_representative(
            evidence,
            (#[trigger] clusters[i]).members@,
            clusters[i].representative,
        ) && wanted.contains(clusters[i].members@)
    &&& forall|j: int|
        0 <= j < wanted.len() ==> cluster_views(clusters).contains(#[trigger] wanted[j])
    &&& forall|i: int, j: int|
        0 <= i < j < clusters.len() ==> (#[trigger] clusters[i]).representative < (
        #[trigger] clusters[j]).representative
}

fn copy_members(members: &Vec<usize>) -> (copied: Vec<usize>)
    ensures
        copied@ == members@,
{
    let mut copied: Vec<usize> = Vec::new();
    let mut index: usize = 0;
    while index < members.len()
        invariant
            index <= members@.len(),
            copied@ == members@.take(index as int),
        decreases members@.len() - index,
    {
        copied.push(members[index]);
        index += 1;
        assert(copied@ =~= members@.take(index as int));
    }
    assert(copied@ =~= members@);
    copied
}

/// Whether each evidence color is chromatic enough to be a hue.
pub open spec fn chromatic_flags(evidence: Seq<EvidenceColor>, floor: Scalar) -> Seq<bool> {
    evidence.map_values(|color: EvidenceColor| floor.at_most(color.chroma))
}

/// Clusters the chromatic evidence by hue and orders the clusters by their
/// representatives.
pub fn complete_link_clusters(
    evidence: &Vec<EvidenceColor>,
    distances: &Vec<Vec<Scalar>>,
    chroma_floor: Scalar,
    limit: Scalar,
) -> (clusters: Vec<HueCluster>)
    requires
        is_table(distances@, evidence@.len()),
        evidence@.len() <= i64::MAX,
    ensures
        lists_clusters(
            evidence@,
            agglomerated(
                distances@,
                limit,
                single_clusters(chromatic_flags(evidence@, chroma_floor)),
            ),
            clusters@,
        ),
        partitions(chromatic_flags(evidence@, chroma_floor), cluster_views(clusters@)),
{
    let mut chromatic: Vec<bool> = Vec::new();
    let mut index: usize = 0;
    let ghost flags = chromatic_flags(evidence@, chroma_floor);
    while index < evidence.len()
        invariant
            index <= evidence@.len(),
            flags == chromatic_flags(evidence@, chroma_floor),
            chromatic@ == flags.take(index as int),
        decreases evidence@.len() - index,
    {
        chromatic.push(chroma_floor.is_at_most(evidence[index].chroma));
        index += 1;
        assert(chromatic@ =~= flags.take(index as int));
    }
    assert(chromatic@ =~= flags);
    let members = complete_link_members(distances, limit, &chromatic);
    let ghost wanted = member_views(members@);
    let mut representatives: Vec<usize> = Vec::new();
    let mut keys: Vec<Vec<i64>> = Vec::new();
    let mut next: usize = 0;
    while next < members.len()
        invariant
            evidence@.len() == flags.len(),
            evidence@.len() <= i64::MAX,
            wanted == member_views(members@),
            partitions(flags, wanted),
            next <= members@.len(),
            representatives@.len() == next,
            keys@.len() == next,
            forall|i: int|
                0 <= i < next ==> is_representative(
                    evidence@,
                    wanted[i],
                    #[trigger] representatives@[i],
                ) && key_views(keys@)[i] == seq![representatives@[i] as i64]
                    && representatives@[i] < evidence@.len(),
        decreases members@.len() - next,
    {
        assert(wanted[next as int] == members@[next as int]@);
        proof {
            lemma_members_in_range(flags, wanted, next as int);
            assert(wanted[next as int].len() > 0);
        }
        assert forall|i: int| 0 <= i < members@[next as int]@.len() implies (
        #[trigger] members@[next as int]@[i]) < evidence@.len() by {
            assert(wanted[next as int][i] < flags.len());
        }
        let representative = representative_of(evidence, &members[next]);
        assert(wanted[next as int].contains(representative));
        let mut key: Vec<i64> = Vec::new();
        key.push(representative as i64);
        assert(key@ =~= seq![representative as i64]);
        let ghost held = key_views(keys@);
        keys.push(key);
        assert(key_views(keys@) =~= held.push(key@));
        representatives.push(representative);
        next += 1;
    }
    let order = stable_order(&keys);
    let mut clusters: Vec<HueCluster> = Vec::new();
    let mut at: usize = 0;
    while at < order.len()
        invariant
            wanted == member_views(members@),
            representatives@.len() == members@.len(),
            keys@.len() == members@.len(),
            is_stable_order(key_views(keys@), order@),
            at <= order@.len(),
            clusters@.len() == at,
            forall|i: int|
                0 <= i < clusters@.len() ==> (#[trigger] clusters@[i]).members@
                    == wanted[order@[i] as int] && clusters@[i].representative
                    == representatives@[order@[i] as int],
        decreases order@.len() - at,
    {
        let from = order[at];
        assert(order@[at as int] < key_views(keys@).len());
        assert(wanted[from as int] == members@[from as int]@);
        clusters.push(
            HueCluster {
                members: copy_members(&members[from]),
                representative: representatives[from],
            },
        );
        at += 1;
    }
    proof {
        let shown = cluster_views(clusters@);
        assert forall|i: int| 0 <= i < clusters@.len() implies is_representative(
            evidence@,
            (#[trigger] clusters@[i]).members@,
            clusters@[i].representative,
        ) && wanted.contains(clusters@[i].members@) by {
            let from = order@[i] as int;
            assert(is_representative(evidence@, wanted[from], representatives@[from]));
        }
        assert forall|j: int| 0 <= j < wanted.len() implies shown.contains(#[trigger] wanted[j]) by {
            crate::order::lemma_stable_order_covers(key_views(keys@), order@, j);
            let i = choose|i: int| 0 <= i < order@.len() && #[trigger] order@[i] == j;
            assert(clusters@[i].members@ == wanted[j]);
            assert(shown[i] == wanted[j]);
        }
        assert forall|i: int, j: int| 0 <= i < j < clusters@.len() implies (
        #[trigger] clusters@[i]).representative < (#[trigger] clusters@[j]).representative by {
            let left = order@[i] as int;
            let right = order@[j] as int;
            assert(order@[i] != order@[j]);
            assert(crate::order::stable_before(key_views(keys@), left, right));
            assert(key_views(keys@)[left] == seq![representatives@[left] as i64]);
            assert(key_views(keys@)[right] == seq![representatives@[right] as i64]);
            assert(wanted[left].contains(representatives@[left]));
            assert(wanted[right].contains(representatives@[right]));
            lemma_single_key(representatives@[left] as i64, representatives@[right] as i64);
        }
        lemma_reordered_partition(flags, wanted, shown, order@);
    }
    clusters
}

proof fn lemma_single_key(left: i64, right: i64)
    ensures
        key_before(seq![left], seq![right]) == (left < right),
        seq![left] == seq![right] ==> left == right,
{
    reveal_with_fuel(key_before, 2);
    assert(seq![left][0] == left && seq![right][0] == right);
    assert(seq![left].drop_first() =~= Seq::<i64>::empty());
    assert(seq![right].drop_first() =~= Seq::<i64>::empty());
}

proof fn lemma_reordered_partition(
    chromatic: Seq<bool>,
    clusters: Seq<Seq<usize>>,
    reordered: Seq<Seq<usize>>,
    order: Seq<usize>,
)
    requires
        partitions(chromatic, clusters),
        order.len() == clusters.len(),
        reordered.len() == clusters.len(),
        crate::order::distinct_positions(order, clusters.len()),
        forall|i: int|
            0 <= i < reordered.len() ==> #[trigger] reordered[i] == clusters[order[i] as int],
    ensures
        partitions(chromatic, reordered),
{
    assert forall|c: int| 0 <= c < reordered.len() implies (#[trigger] reordered[c]).len() > 0
        && ascending_members(reordered[c]) by {
        assert(order[c] < clusters.len());
        assert(clusters[order[c] as int].len() > 0);
    }
    assert forall|c: int, member: usize|
        0 <= c < reordered.len() && #[trigger] reordered[c].contains(member) implies member
        < chromatic.len() && chromatic[member as int] by {
        assert(order[c] < clusters.len());
        assert(clusters[order[c] as int].contains(member));
    }
    assert forall|c: int, d: int, member: usize|
        0 <= c < reordered.len() && 0 <= d < reordered.len() && #[trigger] reordered[c].contains(
            member,
        ) && #[trigger] reordered[d].contains(member) implies c == d by {
        assert(order[c] < clusters.len() && order[d] < clusters.len());
        assert(clusters[order[c] as int].contains(member));
        assert(clusters[order[d] as int].contains(member));
        if c != d {
            assert(order[c] != order[d]);
        }
    }
    assert forall|i: int| 0 <= i < chromatic.len() && #[trigger] chromatic[i] implies exists|c: int|
        0 <= c < reordered.len() && (#[trigger] reordered[c]).contains(i as usize) by {
        let from = choose|c: int|
            0 <= c < clusters.len() && (#[trigger] clusters[c]).contains(i as usize);
        crate::order::lemma_covers(order, clusters.len(), from);
        let c = choose|k: int| 0 <= k < order.len() && #[trigger] order[k] == from;
        assert(reordered[c].contains(i as usize));
    }
}

/// Whether `maximum` is the strongest chroma, or the neutral one without evidence.
pub open spec fn is_chroma_maximum(
    evidence: Seq<EvidenceColor>,
    neutral: Scalar,
    maximum: Scalar,
) -> bool {
    if evidence.len() == 0 {
        maximum == neutral
    } else {
        &&& exists|i: int| 0 <= i < evidence.len() && (#[trigger] evidence[i]).chroma == maximum
        &&& forall|i: int|
            0 <= i < evidence.len() ==> (#[trigger] evidence[i]).chroma.place() <= maximum.place()
    }
}

proof fn lemma_ascending_count(clusters: Seq<HueCluster>, limit: nat)
    requires
        forall|i: int| 0 <= i < clusters.len() ==> (#[trigger] clusters[i]).representative < limit,
        forall|i: int, j: int|
            0 <= i < j < clusters.len() ==> (#[trigger] clusters[i]).representative < (
            #[trigger] clusters[j]).representative,
    ensures
        clusters.len() <= limit,
    decreases clusters.len(),
{
    if clusters.len() > 0 {
        let earlier = clusters.drop_last();
        let last = clusters[clusters.len() - 1].representative as nat;
        assert forall|i: int| 0 <= i < earlier.len() implies (
        #[trigger] earlier[i]).representative < last by {
            assert(earlier[i] == clusters[i]);
        }
        assert forall|i: int, j: int| 0 <= i < j < earlier.len() implies (
        #[trigger] earlier[i]).representative < (#[trigger] earlier[j]).representative by {
            assert(earlier[i] == clusters[i] && earlier[j] == clusters[j]);
        }
        lemma_ascending_count(earlier, last);
    }
}

/// The limits that turn measurements into a profile.
#[derive(Clone, Copy, Debug)]
pub struct ProfileLimits {
    /// The lowest chroma that counts as a hue.
    pub chroma_floor: Scalar,
    /// The widest hue difference within a cluster.
    pub hue_limit: Scalar,
    /// The chroma envelope of a palette without evidence.
    pub neutral_maximum: Scalar,
}

/// The profile of ordered evidence. Hue clustering controls allocation, never the
/// strength of authored colors.
pub fn profile_of(
    evidence: Vec<EvidenceColor>,
    distances: &Vec<Vec<Scalar>>,
    limits: ProfileLimits,
) -> (profile: SyntaxProfile)
    requires
        is_table(distances@, evidence@.len()),
        evidence@.len() <= i64::MAX,
    ensures
        profile.evidence == evidence,
        is_chroma_maximum(
            evidence@,
            limits.neutral_maximum,
            profile.chroma_envelope.ordinary_maximum,
        ),
        lists_clusters(
            evidence@,
            agglomerated(
                distances@,
                limits.hue_limit,
                single_clusters(chromatic_flags(evidence@, limits.chroma_floor)),
            ),
            profile.clusters@,
        ),
        partitions(
            chromatic_flags(evidence@, limits.chroma_floor),
            cluster_views(profile.clusters@),
        ),
        profile.clusters@.len() <= evidence@.len(),
{
    let clusters = complete_link_clusters(
        &evidence,
        distances,
        limits.chroma_floor,
        limits.hue_limit,
    );
    proof {
        let flags = chromatic_flags(evidence@, limits.chroma_floor);
        let shown = cluster_views(clusters@);
        assert forall|i: int| 0 <= i < clusters@.len() implies (
        #[trigger] clusters@[i]).representative < evidence@.len() by {
            assert(shown[i] == clusters@[i].members@);
            assert(shown[i].contains(clusters@[i].representative));
        }
        lemma_ascending_count(clusters@, evidence@.len());
    }
    let mut maximum = limits.neutral_maximum;
    let mut index: usize = 0;
    while index < evidence.len()
        invariant
            index <= evidence@.len(),
            index == 0 ==> maximum == limits.neutral_maximum,
            index > 0 ==> exists|i: int|
                0 <= i < index && (#[trigger] evidence@[i]).chroma == maximum,
            index > 0 ==> forall|i: int|
                0 <= i < index ==> (#[trigger] evidence@[i]).chroma.place() <= maximum.place(),
        decreases evidence@.len() - index,
    {
        let chroma = evidence[index].chroma;
        if index == 0 || maximum.key() <= chroma.key() {
            maximum = chroma;
            assert(evidence@[index as int].chroma == maximum);
        }
        index += 1;
    }
    SyntaxProfile {
        chroma_envelope: ChromaEnvelope { ordinary_maximum: maximum },
        evidence,
        clusters,
    }
}

} // verus!
