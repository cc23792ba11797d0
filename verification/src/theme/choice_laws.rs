//! What holds of the seeds and choices of the theme builder.

use crate::palette::ResolvedPalette;
use crate::scalar::laws::{lemma_larger, lemma_smaller};
use crate::scalar::Scalar;
use crate::text::decimal_of;
use crate::text::laws::lemma_decimal_value;
use crate::theme::borders::{
    at_or_above, crosses, edge_of, is_numeric, last_taken, lemma_lowest, row, rows,
};
use crate::theme::choices::{
    accent_seeds_view, is_candidate, is_closer, is_closest, minimum_of, mode_seeds_view, next_seed,
    player_seeds_view, AuthoredSurface, SurfaceNeed, TerminalSeed,
};
use crate::theme::seeds::{
    ansi_key, ansi_keys, status_seed_view, ChangeSeeds, ContentRole, StatusRole,
};
use crate::theme::style::SemanticColors;
use vstd::prelude::*;

verus! {

/// Secondary text and muted icons start from the muted color, and what is fainter from the
/// dark foreground. Text and icons fade alike: disabled below placeholder, placeholder
/// below what is secondary or muted.
pub proof fn lemma_content_fades()
    ensures
        ContentRole::Secondary.seed_view() == "muted"@,
        ContentRole::IconMuted.seed_view() == "muted"@,
        ContentRole::Placeholder.seed_view() == "dark_foreground"@,
        ContentRole::Disabled.seed_view() == "dark_foreground"@,
        ContentRole::IconPlaceholder.seed_view() == "dark_foreground"@,
        ContentRole::IconDisabled.seed_view() == "dark_foreground"@,
        ContentRole::Secondary.above() is None,
        ContentRole::Placeholder.above() == Some(ContentRole::Secondary),
        ContentRole::Disabled.above() == Some(ContentRole::Placeholder),
        ContentRole::IconMuted.above() is None,
        ContentRole::IconPlaceholder.above() == Some(ContentRole::IconMuted),
        ContentRole::IconDisabled.above() == Some(ContentRole::IconPlaceholder),
{
}

/// The number behind `color` is written in decimal, so that no two terminal colors share a
/// name.
pub proof fn lemma_terminal_keys(one: nat, other: nat)
    ensures
        one != other ==> ansi_key(one) != ansi_key(other),
        ansi_key(one) == "color"@ + decimal_of(one),
{
    lemma_decimal_value(one);
    lemma_decimal_value(other);
    if ansi_key(one) == ansi_key(other) {
        let prefix = "color"@.len() as int;
        assert(ansi_key(one).skip(prefix) =~= decimal_of(one));
        assert(ansi_key(other).skip(prefix) =~= decimal_of(other));
    }
}

/// The eight terminal colors start from the first eight of the palette, their bright
/// strengths from the next eight, in the same order.
pub proof fn lemma_terminal_seeds()
    ensures
        ansi_keys(0) == ("color0"@, "color0"@, "color8"@),
        ansi_keys(1) == ("color1"@, "color1"@, "color9"@),
        ansi_keys(2) == ("color2"@, "color2"@, "color10"@),
        ansi_keys(3) == ("color3"@, "color3"@, "color11"@),
        ansi_keys(4) == ("color4"@, "color4"@, "color12"@),
        ansi_keys(5) == ("color5"@, "color5"@, "color13"@),
        ansi_keys(6) == ("color6"@, "color6"@, "color14"@),
        ansi_keys(7) == ("color7"@, "color7"@, "color15"@),
{
    reveal_strlit("color");
    reveal_with_fuel(decimal_of, 3);
    reveal_strlit("color0");
    assert(ansi_key(0) =~= "color0"@);
    reveal_strlit("color1");
    assert(ansi_key(1) =~= "color1"@);
    reveal_strlit("color2");
    assert(ansi_key(2) =~= "color2"@);
    reveal_strlit("color3");
    assert(ansi_key(3) =~= "color3"@);
    reveal_strlit("color4");
    assert(ansi_key(4) =~= "color4"@);
    reveal_strlit("color5");
    assert(ansi_key(5) =~= "color5"@);
    reveal_strlit("color6");
    assert(ansi_key(6) =~= "color6"@);
    reveal_strlit("color7");
    assert(ansi_key(7) =~= "color7"@);
    reveal_strlit("color8");
    assert(ansi_key(8) =~= "color8"@);
    reveal_strlit("color9");
    assert(ansi_key(9) =~= "color9"@);
    reveal_strlit("color10");
    assert(ansi_key(10) =~= "color10"@);
    reveal_strlit("color11");
    assert(ansi_key(11) =~= "color11"@);
    reveal_strlit("color12");
    assert(ansi_key(12) =~= "color12"@);
    reveal_strlit("color13");
    assert(ansi_key(13) =~= "color13"@);
    reveal_strlit("color14");
    assert(ansi_key(14) =~= "color14"@);
    reveal_strlit("color15");
    assert(ansi_key(15) =~= "color15"@);
}

/// What was created is colored like an addition, what was deleted like a deletion, a
/// warning like a modification; information is accented, a hint is cyan, what is hidden is
/// colored like disabled text and what matters less like secondary text.
pub proof fn lemma_status_seeds(semantic: SemanticColors, changes: ChangeSeeds)
    ensures
        status_seed_view(StatusRole::Created, semantic, changes) == changes.added@,
        status_seed_view(StatusRole::Deleted, semantic, changes) == changes.deleted@,
        status_seed_view(StatusRole::Warning, semantic, changes) == changes.modified@,
        status_seed_view(StatusRole::Info, semantic, changes) == semantic.accent@,
        status_seed_view(StatusRole::Hint, semantic, changes) == semantic.cyan@,
        status_seed_view(StatusRole::Hidden, semantic, changes) == semantic.disabled@,
        status_seed_view(StatusRole::Quiet, semantic, changes) == semantic.secondary@,
{
}

/// The eight modes, normal, insert, replace, visual, visual line, visual block, and the
/// normal and select modes of Helix, start from accent, green, red, magenta, blue, yellow,
/// cyan and accent: inserting is green and replacing is red.
pub proof fn lemma_mode_seeds(semantic: SemanticColors)
    ensures
        ({
            let seeds = mode_seeds_view(semantic);
            &&& seeds.len() == 8
            &&& seeds[0] == semantic.accent@
            &&& seeds[1] == semantic.green@
            &&& seeds[2] == semantic.red@
            &&& seeds[3] == semantic.magenta@
            &&& seeds[4] == semantic.blue@
            &&& seeds[5] == semantic.yellow@
            &&& seeds[6] == semantic.cyan@
            &&& seeds[7] == semantic.accent@
        }),
{
}

/// The local player has the accent, and seven others each a hue of their own. The accents
/// start with the colors of the players, in the same order, and go on with brown and three
/// bright hues.
pub proof fn lemma_player_seeds(semantic: SemanticColors, palette: ResolvedPalette)
    ensures
        ({
            let players = player_seeds_view(semantic);
            let accents = accent_seeds_view(semantic, palette);
            &&& players.len() == 8 && accents.len() == 12
            &&& players[0] == semantic.accent@
            &&& players[1] == semantic.orange@
            &&& players[2] == semantic.magenta@
            &&& players[3] == semantic.green@
            &&& players[4] == semantic.blue@
            &&& players[5] == semantic.yellow@
            &&& players[6] == semantic.cyan@
            &&& players[7] == semantic.red@
            &&& forall|i: int| 0 <= i < 8 ==> #[trigger] accents[i] == players[i]
            &&& accents[8] == palette.colors@["brown"@]@
            &&& accents[9] == palette.colors@["bright_blue"@]@
            &&& accents[10] == palette.colors@["bright_magenta"@]@
            &&& accents[11] == palette.colors@["bright_green"@]@
        }),
{
}

/// A strength of a terminal color is fitted from its own color first, then from the normal
/// strength, and is the normal strength itself if neither fit keeps its place. A fit that
/// keeps its place is taken.
pub proof fn lemma_strengths_fall_back(tried: TerminalSeed)
    ensures
        next_seed(tried, true) is None,
        next_seed(TerminalSeed::Own, false) == Some(TerminalSeed::Normal),
        next_seed(TerminalSeed::Normal, false) == Some(TerminalSeed::Fallback),
        next_seed(TerminalSeed::Fallback, false) is None,
{
}

/// Whether a color of the palette can be a surface as it is: it is not in use, its
/// lightness is near enough to the one wanted and above the floor, and it lies on the side
/// of the canvas on which the one wanted lies.
pub open spec fn can_be_surface(
    need: SurfaceNeed,
    surface: AuthoredSurface,
    used: Seq<Seq<char>>,
) -> bool {
    &&& forall|i: int| 0 <= i < used.len() ==> #[trigger] used[i] != surface.value@
    &&& !need.tolerance.less(surface.gap)
    &&& need.target.less(need.canvas) ==> surface.lightness.less(need.canvas)
    &&& !need.target.less(need.canvas) ==> need.canvas.less(surface.lightness)
    &&& !surface.lightness.at_most(need.floor)
}

/// A color of the palette that is taken as a surface can be one, and no other that can is
/// nearer to the lightness wanted; one that is toned is the nearest of all.
pub proof fn lemma_surface_is_nearest(
    need: SurfaceNeed,
    authored: Seq<AuthoredSurface>,
    used: Seq<Seq<char>>,
    strict: bool,
    index: int,
)
    requires
        is_closest(need, authored, used, strict, index),
    ensures
        0 <= index < authored.len(),
        strict ==> can_be_surface(need, authored[index], used),
        forall|other: int|
            0 <= other < authored.len() && (strict ==> can_be_surface(
                need,
                #[trigger] authored[other],
                used,
            )) ==> authored[index].gap.place() <= authored[other].gap.place(),
{
    assert forall|i: int| 0 <= i < authored.len() implies (need.admits(
        #[trigger] authored[i],
        used,
    ) <==> can_be_surface(need, authored[i], used)) by {
        if used.contains(authored[i].value@) {
            let at = choose|k: int| 0 <= k < used.len() && used[k] == authored[i].value@;
            assert(used[at] == authored[i].value@);
        }
    }
    assert(need.admits(authored[index], used) <==> can_be_surface(need, authored[index], used));
    assert forall|other: int|
        0 <= other < authored.len() && (strict ==> can_be_surface(
            need,
            #[trigger] authored[other],
            used,
        )) implies authored[index].gap.place() <= authored[other].gap.place() by {
        assert(is_candidate(need, authored, used, strict, other));
        assert(!is_closer(authored[other], authored[index]));
    }
}

/// The least contrast is not above any contrast, and is one of them or where the walk
/// started. What is not a number counts for nothing.
pub proof fn lemma_minimum_is_least(values: Seq<Scalar>, start: Scalar)
    requires
        !start.is_nan_view(),
    ensures
        minimum_of(values, start).at_most(start),
        forall|i: int|
            0 <= i < values.len() && !(#[trigger] values[i]).is_nan_view() ==> minimum_of(
                values,
                start,
            ).at_most(values[i]),
        minimum_of(values, start) == start || values.contains(minimum_of(values, start)),
    decreases values.len(),
{
    if values.len() > 0 {
        let shorter = values.drop_last();
        lemma_minimum_is_least(shorter, start);
        let held = minimum_of(shorter, start);
        lemma_smaller(held, values.last());
        assert forall|i: int| 0 <= i < values.len() && !(
        #[trigger] values[i]).is_nan_view() implies minimum_of(values, start).at_most(
            values[i],
        ) by {
            if i < shorter.len() {
                assert(shorter[i] == values[i]);
            }
        }
        if minimum_of(values, start) == values.last() {
            assert(values[values.len() - 1] == minimum_of(values, start));
        } else if shorter.contains(held) {
            let at = choose|k: int| 0 <= k < shorter.len() && shorter[k] == held;
            assert(values[at] == held);
        }
    }
}

/// The edge that lighter borders stay beyond is the lightest surface, and the edge of
/// darker ones the darkest.
pub proof fn lemma_edge_is_outermost(luminances: Seq<Scalar>, lighter: bool)
    requires
        luminances.len() > 0,
        forall|i: int| 0 <= i < luminances.len() ==> !(#[trigger] luminances[i]).is_nan_view(),
    ensures
        luminances.contains(edge_of(luminances, lighter)),
        forall|i: int|
            0 <= i < luminances.len() ==> if lighter {
                (#[trigger] luminances[i]).at_most(edge_of(luminances, lighter))
            } else {
                edge_of(luminances, lighter).at_most(luminances[i])
            },
    decreases luminances.len(),
{
    if luminances.len() == 1 {
        assert(luminances[0] == edge_of(luminances, lighter));
    } else {
        let shorter = luminances.drop_last();
        assert forall|i: int| 0 <= i < shorter.len() implies !(
        #[trigger] shorter[i]).is_nan_view() by {
            assert(shorter[i] == luminances[i]);
        }
        lemma_edge_is_outermost(shorter, lighter);
        let held = edge_of(shorter, lighter);
        let at = choose|k: int| 0 <= k < shorter.len() && shorter[k] == held;
        assert(luminances[at] == held);
        let last = luminances[luminances.len() - 1];
        lemma_larger(held, last);
        lemma_smaller(held, last);
        assert(luminances.contains(held));
        assert(luminances.contains(last));
        assert forall|i: int| 0 <= i < luminances.len() implies if lighter {
            (#[trigger] luminances[i]).at_most(edge_of(luminances, lighter))
        } else {
            edge_of(luminances, lighter).at_most(luminances[i])
        } by {
            if i < shorter.len() {
                assert(shorter[i] == luminances[i]);
            }
        }
    }
}

/// A border crosses the edge exactly where it lies on the near side of it: darker than the
/// edge where borders are lighter, and lighter where they are darker.
pub proof fn lemma_crossing(luminance: Scalar, edge: Scalar)
    ensures
        crosses(luminance, edge, true) <==> luminance.less(edge),
        crosses(luminance, edge, false) <==> edge.less(luminance),
{
}

/// Whether the normal border stands out no less than the passive one.
pub open spec fn stands_out(passive: Scalar, normal: Scalar, lighter: bool) -> bool {
    if lighter {
        !normal.less(passive)
    } else {
        !passive.less(normal)
    }
}

proof fn lemma_row_pairs(luminances: Seq<Scalar>, lighter: bool, passive: int, count: int)
    requires
        0 <= passive < luminances.len() <= usize::MAX,
        0 <= count <= luminances.len(),
    ensures
        forall|pair: (usize, usize)| #[trigger]
            row(luminances, lighter, passive, count).contains(pair) <==> pair.0 == passive && pair.1
                < count && stands_out(luminances[passive], luminances[pair.1 as int], lighter),
    decreases count,
{
    if count > 0 {
        lemma_row_pairs(luminances, lighter, passive, count - 1);
        let before = row(luminances, lighter, passive, count - 1);
        let all = row(luminances, lighter, passive, count);
        let added = (passive as usize, (count - 1) as usize);
        assert forall|pair: (usize, usize)| #[trigger] all.contains(pair) <==> pair.0 == passive
            && pair.1 < count && stands_out(
            luminances[passive],
            luminances[pair.1 as int],
            lighter,
        ) by {
            if all.contains(pair) && pair != added {
                let at = choose|k: int| 0 <= k < all.len() && all[k] == pair;
                assert(before[at] == pair);
                assert(before.contains(pair));
            }
            if before.contains(pair) {
                let at = choose|k: int| 0 <= k < before.len() && before[k] == pair;
                assert(all[at] == pair);
            }
            if all.len() > before.len() {
                assert(all[before.len() as int] == added);
            }
            if pair.0 == passive && pair.1 < count && stands_out(
                luminances[passive],
                luminances[pair.1 as int],
                lighter,
            ) {
                if pair.1 < count - 1 {
                    assert(before.contains(pair));
                } else {
                    assert(pair == added);
                }
            }
        }
    }
}

proof fn lemma_rows_pairs(luminances: Seq<Scalar>, lighter: bool, count: int)
    requires
        luminances.len() <= usize::MAX,
        0 <= count <= luminances.len(),
    ensures
        forall|pair: (usize, usize)| #[trigger]
            rows(luminances, lighter, count).contains(pair) <==> pair.0 < count && pair.1
                < luminances.len() && stands_out(
                luminances[pair.0 as int],
                luminances[pair.1 as int],
                lighter,
            ),
    decreases count,
{
    if count > 0 {
        lemma_rows_pairs(luminances, lighter, count - 1);
        lemma_row_pairs(luminances, lighter, count - 1, luminances.len() as int);
        let before = rows(luminances, lighter, count - 1);
        let added = row(luminances, lighter, count - 1, luminances.len() as int);
        let all = rows(luminances, lighter, count);
        assert forall|pair: (usize, usize)| #[trigger] all.contains(pair) <==> pair.0 < count
            && pair.1 < luminances.len() && stands_out(
            luminances[pair.0 as int],
            luminances[pair.1 as int],
            lighter,
        ) by {
            if all.contains(pair) {
                let at = choose|k: int| 0 <= k < all.len() && all[k] == pair;
                if at < before.len() {
                    assert(before[at] == pair);
                    assert(before.contains(pair));
                } else {
                    assert(added[at - before.len()] == pair);
                    assert(added.contains(pair));
                }
            }
            if before.contains(pair) {
                let at = choose|k: int| 0 <= k < before.len() && before[k] == pair;
                assert(all[at] == pair);
            }
            if added.contains(pair) {
                let at = choose|k: int| 0 <= k < added.len() && added[k] == pair;
                assert(all[before.len() + at] == pair);
            }
        }
    }
}

/// Exactly those borders are paired of which the normal one stands out no less than the
/// passive one.
pub proof fn lemma_paired_borders(luminances: Seq<Scalar>, lighter: bool, pair: (usize, usize))
    requires
        luminances.len() <= usize::MAX,
    ensures
        rows(luminances, lighter, luminances.len() as int).contains(pair) <==> {
            &&& pair.0 < luminances.len()
            &&& pair.1 < luminances.len()
            &&& stands_out(luminances[pair.0 as int], luminances[pair.1 as int], lighter)
        },
{
    lemma_rows_pairs(luminances, lighter, luminances.len() as int);
}

proof fn lemma_at_or_above(rank: Seq<Scalar>, other: Seq<Scalar>)
    requires
        rank.len() == other.len(),
        is_numeric(rank),
        is_numeric(other),
        at_or_above(rank, other),
    ensures
        is_no_lower(rank, other),
    decreases rank.len(),
{
    if rank.len() > 0 {
        assert(!rank[0].is_nan_view() && !other[0].is_nan_view());
        if rank[0].at_most(other[0]) && other[0].at_most(rank[0]) {
            lemma_at_or_above(rank.skip(1), other.skip(1));
            assert forall|k: int| 0 <= k < rank.len() && (#[trigger] rank[k]).less(
                other[k],
            ) implies exists|j: int| 0 <= j < k && other[j].less(#[trigger] rank[j]) by {
                if k > 0 {
                    assert(rank.skip(1)[k - 1].less(other.skip(1)[k - 1]));
                    let j = choose|j: int|
                        0 <= j < k - 1 && other.skip(1)[j].less(#[trigger] rank.skip(1)[j]);
                    assert(other[j + 1].less(rank[j + 1]));
                }
            }
        } else {
            assert(other[0].less(rank[0]));
        }
    }
}

/// Whether a rank is lower than the other at no place unless it is higher at an earlier
/// one.
pub open spec fn is_no_lower(rank: Seq<Scalar>, other: Seq<Scalar>) -> bool {
    forall|k: int|
        0 <= k < rank.len() && (#[trigger] rank[k]).less(other[k]) ==> exists|j: int|
            0 <= j < k && other[j].less(#[trigger] rank[j])
}

/// Among ranks of numbers none is lower than the one chosen; above all, none has a lower
/// first measurement.
pub proof fn lemma_no_border_ranks_lower(ranks: Seq<Seq<Scalar>>, index: int)
    requires
        0 <= index < ranks.len(),
        forall|i: int|
            0 <= i < ranks.len() ==> is_numeric(#[trigger] ranks[i]) && ranks[i].len()
                == ranks[0].len(),
    ensures
        0 <= last_taken(ranks) < ranks.len(),
        is_no_lower(ranks[index], ranks[last_taken(ranks)]),
        ranks[0].len() > 0 ==> ranks[last_taken(ranks)][0].at_most(ranks[index][0]),
{
    lemma_lowest(ranks, index);
    let chosen = ranks[last_taken(ranks)];
    assert(is_numeric(ranks[index]) && is_numeric(chosen));
    lemma_at_or_above(ranks[index], chosen);
    if ranks[0].len() > 0 {
        assert(!ranks[index][0].is_nan_view() && !chosen[0].is_nan_view());
        assert(!ranks[index][0].less(chosen[0]));
    }
}

} // verus!
