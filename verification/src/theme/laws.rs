//! What holds of every theme that is assembled.

use crate::json::{list_at, object_at, text_at, Json};
use crate::theme::assembly::{
    is_made_style, is_player, is_style_of, is_syntax_of, is_theme_of, lemma_role_table_names,
    ThemeParts,
};
use crate::theme::document::theme_entry;
use crate::theme::roles::STYLE_ROLES;
use crate::theme::style::{first_kind_fault, kind_fault, kinds_of, without_kinds, StyleColors};
use crate::theme::tokens::{StatusTokens, ThemeTokens};
use vstd::prelude::*;

verus! {

/// The style of the theme that the document holds.
pub open spec fn style_of(document: Json) -> Map<Seq<char>, Json> {
    object_at(theme_entry(document.object_view()->0)->0, "style"@)->0
}

/// Whether both roles have a color, and the same one.
pub open spec fn same_color(
    style: Map<Seq<char>, Json>,
    first: Seq<char>,
    second: Seq<char>,
) -> bool {
    text_at(style, first) is Some && text_at(style, first) == text_at(style, second)
}

/// Whether the colors of two statuses agree.
pub open spec fn same_status(
    style: Map<Seq<char>, Json>,
    first: Seq<char>,
    second: Seq<char>,
) -> bool {
    &&& same_color(style, first, second)
    &&& same_color(style, first + ".background"@, second + ".background"@)
    &&& same_color(style, first + ".border"@, second + ".border"@)
}

/// Whether the role has a color of the kind: without an alpha byte, or with one.
pub open spec fn has_kind(style: Map<Seq<char>, Json>, role: Seq<char>, opaque: bool) -> bool {
    text_at(style, role) matches Some(color) && kind_fault(opaque, color) is None
}

/// The roles that show what is below them.
pub open spec fn translucent_roles() -> Seq<Seq<char>> {
    seq![
        "drop_target.background"@,
        "search.match_background"@,
        "search.active_match_background"@,
        "scrollbar.thumb.background"@,
        "scrollbar.thumb.hover_background"@,
        "scrollbar.thumb.active_background"@,
        "minimap.thumb.background"@,
        "minimap.thumb.hover_background"@,
        "minimap.thumb.active_background"@,
        "editor.document_highlight.write_background"@,
        "editor.document_highlight.bracket_background"@,
        "editor.diff_hunk.added.background"@,
        "editor.diff_hunk.added.hollow_background"@,
        "editor.diff_hunk.added.hollow_border"@,
        "editor.diff_hunk.deleted.background"@,
        "editor.diff_hunk.deleted.hollow_background"@,
        "editor.diff_hunk.deleted.hollow_border"@,
        "version_control.word_added"@,
        "version_control.word_deleted"@,
        "version_control.conflict_marker.ours"@,
        "version_control.conflict_marker.theirs"@,
        "vim.yank.background"@,
        "editor.document_highlight.read_background"@,
    ]
}

/// Where the statuses that share their colors stand in the table.
proof fn lemma_shared_statuses(tokens: StatusTokens)
    ensures
        tokens.role_table().len() == 42,
        tokens.role_table().subrange(0, 3) == tokens.positive.roles_of("created"@),
        tokens.role_table().subrange(3, 6) == tokens.positive.roles_of("success"@),
        tokens.role_table().subrange(6, 9) == tokens.negative.roles_of("deleted"@),
        tokens.role_table().subrange(9, 12) == tokens.negative.roles_of("error"@),
        tokens.role_table().subrange(12, 15) == tokens.warning.roles_of("conflict"@),
        tokens.role_table().subrange(15, 18) == tokens.warning.roles_of("modified"@),
        tokens.role_table().subrange(18, 21) == tokens.warning.roles_of("warning"@),
        tokens.role_table().subrange(21, 24) == tokens.informational.roles_of("info"@),
        tokens.role_table().subrange(24, 27) == tokens.informational.roles_of("renamed"@),
{
    reveal(StatusTokens::role_table);
}

/// Two runs of three roles in one table that have the same colors are statuses
/// that agree.
proof fn lemma_runs_agree(
    style: Map<Seq<char>, Json>,
    parts: ThemeParts,
    tokens: ThemeTokens,
    first: (int, Seq<char>),
    second: (int, Seq<char>),
)
    requires
        is_style_of(style, parts, tokens),
        0 <= first.0 <= 39,
        0 <= second.0 <= 39,
        tokens.statuses.role_table().len() == 42,
        ({
            let one = tokens.statuses.role_table().subrange(first.0, first.0 + 3);
            let other = tokens.statuses.role_table().subrange(second.0, second.0 + 3);
            &&& one[0].0 == first.1 && one[1].0 == first.1 + ".background"@ && one[2].0 == first.1
                + ".border"@
            &&& other[0].0 == second.1 && other[1].0 == second.1 + ".background"@ && other[2].0
                == second.1 + ".border"@
            &&& one[0].1 == other[0].1 && one[1].1 == other[1].1 && one[2].1 == other[2].1
        }),
    ensures
        same_status(style, first.1, second.1),
{
    let statuses = tokens.statuses.role_table();
    let table = parts.colors.role_table(tokens);
    assert forall|i: int| 0 <= i < 42 implies #[trigger] table[i] == statuses[i] by {}
    assert forall|i: int| 0 <= i < 3 implies text_at(
        style,
        (#[trigger] statuses.subrange(first.0, first.0 + 3)[i]).0,
    ) == Some(statuses.subrange(first.0, first.0 + 3)[i].1) by {
        assert(table[first.0 + i] == statuses.subrange(first.0, first.0 + 3)[i]);
    }
    assert forall|i: int| 0 <= i < 3 implies text_at(
        style,
        (#[trigger] statuses.subrange(second.0, second.0 + 3)[i]).0,
    ) == Some(statuses.subrange(second.0, second.0 + 3)[i].1) by {
        assert(table[second.0 + i] == statuses.subrange(second.0, second.0 + 3)[i]);
    }
}

/// Statuses that mean the same look the same: created and success, deleted and
/// error, conflict, modified and warning, and info and renamed.
pub proof fn lemma_statuses_agree(document: Json, parts: ThemeParts)
    requires
        is_theme_of(document, parts),
    ensures
        same_status(style_of(document), "created"@, "success"@),
        same_status(style_of(document), "deleted"@, "error"@),
        same_status(style_of(document), "conflict"@, "modified"@),
        same_status(style_of(document), "conflict"@, "warning"@),
        same_status(style_of(document), "info"@, "renamed"@),
{
    let style = style_of(document);
    assert(is_made_style(style, parts));
    let tokens = choose|tokens: ThemeTokens| #[trigger] is_style_of(style, parts, tokens);
    lemma_shared_statuses(tokens.statuses);
    lemma_runs_agree(style, parts, tokens, (0, "created"@), (3, "success"@));
    lemma_runs_agree(style, parts, tokens, (6, "deleted"@), (9, "error"@));
    lemma_runs_agree(style, parts, tokens, (12, "conflict"@), (15, "modified"@));
    lemma_runs_agree(style, parts, tokens, (12, "conflict"@), (18, "warning"@));
    lemma_runs_agree(style, parts, tokens, (21, "info"@), (24, "renamed"@));
}

proof fn lemma_every_kind_is_right(checks: Seq<(bool, Seq<char>)>, index: int)
    requires
        first_kind_fault(checks) is None,
        0 <= index < checks.len(),
    ensures
        kind_fault(checks[index].0, checks[index].1) is None,
    decreases checks.len(),
{
    if index > 0 {
        assert(checks.drop_first()[index - 1] == checks[index]);
        lemma_every_kind_is_right(checks.drop_first(), index - 1);
    }
}

/// A role that takes its color from no token has a color of its kind.
proof fn lemma_fixed_role_has_its_kind(
    style: Map<Seq<char>, Json>,
    parts: ThemeParts,
    tokens: ThemeTokens,
    index: int,
)
    requires
        is_style_of(style, parts, tokens),
        parts.colors.fault() is None,
        0 <= index < parts.colors.fixed_table().len(),
    ensures
        has_kind(
            style,
            parts.colors.fixed_table()[index].0,
            parts.colors.fixed_table()[index].1,
        ),
{
    let fixed = parts.colors.fixed_table();
    let table = parts.colors.role_table(tokens);
    lemma_every_kind_is_right(kinds_of(fixed), index);
    lemma_shared_statuses(tokens.statuses);
    assert(table[42 + index] == without_kinds(fixed)[index]);
}

/// Where the translucent roles stand among those that take their color from no
/// token.
proof fn lemma_translucent_places(colors: StyleColors)
    ensures
        ({
            let fixed = colors.fixed_table();
            let roles = translucent_roles();
            &&& fixed.len() == 105
            &&& fixed[8].0 == "drop_target.border"@ && fixed[8].1
            &&& fixed[7].0 == roles[0] && !fixed[7].1
            &&& fixed[12].0 == roles[1] && !fixed[12].1
            &&& fixed[13].0 == roles[2] && !fixed[13].1
            &&& forall|i: int| 0 <= i < 3 ==> (#[trigger] fixed[23 + i]).0 == roles[3 + i]
                && !fixed[23 + i].1
            &&& forall|i: int| 0 <= i < 3 ==> (#[trigger] fixed[28 + i]).0 == roles[6 + i]
                && !fixed[28 + i].1
            &&& forall|i: int| 0 <= i < 8 ==> (#[trigger] fixed[40 + i]).0 == roles[9 + i]
                && !fixed[40 + i].1
            &&& forall|i: int| 0 <= i < 5 ==> (#[trigger] fixed[83 + i]).0 == roles[17 + i]
                && !fixed[83 + i].1
        }),
{
    reveal(StyleColors::fixed_table);
}

/// Where the highlight of a read stands among the roles that take their color from
/// a token.
proof fn lemma_read_place(tokens: ThemeTokens)
    ensures
        tokens.role_table().len() == 38,
        tokens.role_table()[37] == (
            "editor.document_highlight.read_background"@,
            tokens.derived.document_read@,
        ),
{
    reveal(ThemeTokens::role_table);
}

/// Highlights, change markers, thumbs and drop targets always show what is below
/// them, and the border of a drop target never does.
pub proof fn lemma_overlays_are_translucent(document: Json, parts: ThemeParts)
    requires
        is_theme_of(document, parts),
        parts.colors.fault() is None,
    ensures
        forall|i: int|
            0 <= i < translucent_roles().len() ==> has_kind(
                style_of(document),
                #[trigger] translucent_roles()[i],
                false,
            ),
        has_kind(style_of(document), "drop_target.border"@, true),
{
    let style = style_of(document);
    assert(is_made_style(style, parts));
    let tokens = choose|tokens: ThemeTokens| #[trigger] is_style_of(style, parts, tokens);
    let fixed = parts.colors.fixed_table();
    let roles = translucent_roles();
    lemma_translucent_places(parts.colors);
    lemma_fixed_role_has_its_kind(style, parts, tokens, 8);
    assert(has_kind(style, roles[22], false)) by {
        reveal(StyleColors::gives);
        reveal(StyleColors::token_fault);
        lemma_read_place(tokens);
        lemma_shared_statuses(tokens.statuses);
        let table = parts.colors.role_table(tokens);
        assert(table[184] == tokens.role_table()[37]);
    }
    assert forall|i: int| 0 <= i < roles.len() implies has_kind(
        style,
        #[trigger] roles[i],
        false,
    ) by {
        if i < 22 {
            let place: int = if i == 0 {
                7
            } else if i < 3 {
                11 + i
            } else if i < 6 {
                20 + i
            } else if i < 9 {
                22 + i
            } else if i < 17 {
                31 + i
            } else {
                66 + i
            };
            lemma_fixed_role_has_its_kind(style, parts, tokens, place);
            assert(fixed[23 + (i - 3)] == fixed[20 + i]);
            assert(fixed[28 + (i - 6)] == fixed[22 + i]);
            assert(fixed[40 + (i - 9)] == fixed[31 + i]);
            assert(fixed[83 + (i - 17)] == fixed[66 + i]);
        }
    }
}

/// Whether the role has the same color in both styles.
pub open spec fn same_texts(
    first: Map<Seq<char>, Json>,
    second: Map<Seq<char>, Json>,
    role: Seq<char>,
) -> bool {
    text_at(first, role) is Some && text_at(first, role) == text_at(second, role)
}

/// The tokens of the same colors give the same table.
proof fn lemma_tables_agree(colors: StyleColors, first: ThemeTokens, second: ThemeTokens)
    requires
        colors.gives(first),
        colors.gives(second),
    ensures
        colors.role_table(first) == colors.role_table(second),
{
    reveal(StyleColors::gives);
    assert(first.statuses.role_table() == second.statuses.role_table()) by {
        reveal(StatusTokens::role_table);
    }
    assert(first.role_table() == second.role_table()) by {
        reveal(ThemeTokens::role_table);
    }
}

/// The parts determine the theme: in two themes of the same parts every role has
/// the same color, and so have the accents, the players and the captures.
pub proof fn lemma_parts_determine_the_theme(first: Json, second: Json, parts: ThemeParts)
    requires
        is_theme_of(first, parts),
        is_theme_of(second, parts),
    ensures
        style_of(first).dom() == style_of(second).dom(),
        forall|i: int|
            0 <= i < STYLE_ROLES@.len() ==> same_texts(
                style_of(first),
                style_of(second),
                #[trigger] STYLE_ROLES@[i]@,
            ),
        ({
            let one = list_at(style_of(first), "accents"@)->0;
            let other = list_at(style_of(second), "accents"@)->0;
            one.len() == other.len() && forall|i: int|
                0 <= i < one.len() ==> (#[trigger] one[i]).text_view() == other[i].text_view()
        }),
        ({
            let one = list_at(style_of(first), "players"@)->0;
            let other = list_at(style_of(second), "players"@)->0;
            one.len() == other.len() && forall|i: int|
                0 <= i < one.len() ==> is_player(#[trigger] one[i], parts.players@[i]) && is_player(
                    other[i],
                    parts.players@[i],
                )
        }),
        is_syntax_of(object_at(style_of(first), "syntax"@)->0, parts.syntax@),
        is_syntax_of(object_at(style_of(second), "syntax"@)->0, parts.syntax@),
{
    assert(is_made_style(style_of(first), parts));
    assert(is_made_style(style_of(second), parts));
    let one = choose|tokens: ThemeTokens| #[trigger] is_style_of(style_of(first), parts, tokens);
    let other = choose|tokens: ThemeTokens| #[trigger]
        is_style_of(style_of(second), parts, tokens);
    lemma_tables_agree(parts.colors, one, other);
    lemma_role_table_names(parts.colors, one);
    let table = parts.colors.role_table(one);
    assert forall|i: int| 0 <= i < STYLE_ROLES@.len() implies same_texts(
        style_of(first),
        style_of(second),
        #[trigger] STYLE_ROLES@[i]@,
    ) by {
        assert(table[i].0 == STYLE_ROLES@[i]@);
    }
}

} // verus!
