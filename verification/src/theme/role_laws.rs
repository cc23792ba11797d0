//! Which color each role of an assembled theme has.

use crate::color::{hex_color, is_hex, lemma_hex_round_trip, Rgba};
use crate::json::{list_at, object_at, text_at, Json};
use crate::syntax::policy::capture_names;
use crate::theme::assembly::{
    is_capture, is_made_style, is_player, is_style_of, is_theme_of, ThemeParts,
};
use crate::theme::document::theme_entry;
use crate::theme::laws::style_of;
use crate::theme::style::{without_kinds, StatusColors, StyleColors, Triplet};
use crate::theme::tokens::{StatusTokens, ThemeTokens};
use vstd::prelude::*;

verus! {

/// Whether the role has the color.
pub open spec fn has_color(style: Map<Seq<char>, Json>, role: Seq<char>, color: Seq<char>) -> bool {
    text_at(style, role) == Some(color)
}

/// Whether the three roles have the dim, the normal and the bright color.
pub open spec fn has_strengths(
    style: Map<Seq<char>, Json>,
    dim: Seq<char>,
    normal: Seq<char>,
    bright: Seq<char>,
    triplet: Triplet,
) -> bool {
    &&& has_color(style, dim, triplet.dim@)
    &&& has_color(style, normal, triplet.normal@)
    &&& has_color(style, bright, triplet.bright@)
}

/// Whether the status has the foreground, and whether its background and border
/// have theirs.
pub open spec fn has_status(
    style: Map<Seq<char>, Json>,
    name: Seq<char>,
    status: StatusColors,
) -> bool {
    &&& has_color(style, name, status.foreground@)
    &&& has_color(style, name + ".background"@, status.background@)
    &&& has_color(style, name + ".border"@, status.border@)
}

/// The style of a theme has the tokens of the colors that it was made of.
proof fn lemma_style_has_tokens(document: Json, parts: ThemeParts) -> (tokens: ThemeTokens)
    requires
        is_theme_of(document, parts),
    ensures
        is_style_of(style_of(document), parts, tokens),
{
    assert(is_made_style(style_of(document), parts));
    choose|tokens: ThemeTokens| #[trigger] is_style_of(style_of(document), parts, tokens)
}

/// How many roles take their color from a status, from none and from another token.
proof fn lemma_table_lengths(colors: StyleColors, tokens: ThemeTokens)
    ensures
        tokens.statuses.role_table().len() == 42,
        colors.fixed_table().len() == 105,
        tokens.role_table().len() == 38,
{
    reveal(StatusTokens::role_table);
    reveal(StyleColors::fixed_table);
    reveal(ThemeTokens::role_table);
}

/// A role that takes its color from no token.
proof fn lemma_fixed_role(
    style: Map<Seq<char>, Json>,
    parts: ThemeParts,
    tokens: ThemeTokens,
    index: int,
)
    requires
        is_style_of(style, parts, tokens),
        0 <= index < 105,
    ensures
        has_color(
            style,
            parts.colors.fixed_table()[index].0,
            parts.colors.fixed_table()[index].2,
        ),
{
    lemma_table_lengths(parts.colors, tokens);
    let table = parts.colors.role_table(tokens);
    assert(table[42 + index] == without_kinds(parts.colors.fixed_table())[index]);
}

/// A role that takes its color from a token.
proof fn lemma_token_role(
    style: Map<Seq<char>, Json>,
    parts: ThemeParts,
    tokens: ThemeTokens,
    index: int,
)
    requires
        is_style_of(style, parts, tokens),
        0 <= index < 38,
    ensures
        has_color(style, tokens.role_table()[index].0, tokens.role_table()[index].1),
{
    lemma_table_lengths(parts.colors, tokens);
    let table = parts.colors.role_table(tokens);
    assert(table[147 + index] == tokens.role_table()[index]);
}

/// Where these roles stand.
proof fn lemma_frame_roles_rows(style: Map<Seq<char>, Json>, parts: ThemeParts, tokens: ThemeTokens)
    requires
        is_style_of(style, parts, tokens),
    ensures
        forall|i: int|
            0 <= i < 14 ==> has_color(
                style,
                (#[trigger] parts.colors.frame_table()[i]).0,
                parts.colors.frame_table()[i].2,
            ),
{
    assert forall|i: int| 0 <= i < 14 implies has_color(
        style,
        (#[trigger] parts.colors.frame_table()[i]).0,
        parts.colors.frame_table()[i].2,
    ) by {
        lemma_fixed_role(style, parts, tokens, 0 + i);
        assert(parts.colors.fixed_table()[0 + i] == parts.colors.frame_table()[i]) by {
            reveal(StyleColors::fixed_table);
        }
    }
}

/// Borders, controls, tabs and searches have the colors that were solved for them:
/// what is selected or focused has the border of the focus, and what is disabled or
/// of less weight the passive border.
pub proof fn lemma_frame_roles(document: Json, parts: ThemeParts)
    requires
        is_theme_of(document, parts),
    ensures
        ({
            let style = style_of(document);
            let colors = parts.colors;
            &&& has_color(style, "border"@, colors.semantic.structural@)
            &&& has_color(style, "border.variant"@, colors.semantic.passive@)
            &&& has_color(style, "border.focused"@, colors.focus_border@)
            &&& has_color(style, "border.selected"@, colors.focus_border@)
            &&& has_color(style, "border.disabled"@, colors.semantic.passive@)
            &&& has_color(style, "element.background"@, colors.surface@)
            &&& has_color(style, "element.selection_background"@, colors.element_selected@)
            &&& has_color(style, "drop_target.background"@, colors.drop_target@)
            &&& has_color(style, "drop_target.border"@, colors.drop_target_border@)
            &&& has_color(style, "debugger.accent"@, colors.semantic.red@)
            &&& has_color(style, "tab_bar.background"@, colors.chrome@)
            &&& has_color(style, "tab.inactive_background"@, colors.tab_inactive@)
            &&& has_color(style, "search.match_background"@, colors.search_match@)
            &&& has_color(style, "search.active_match_background"@, colors.search_active@)
        }),
{
    let tokens = lemma_style_has_tokens(document, parts);
    lemma_frame_roles_rows(style_of(document), parts, tokens);
    let table = parts.colors.frame_table();
    assert(table[0].0 == "border"@);
    assert(table[1].0 == "border.variant"@);
    assert(table[2].0 == "border.focused"@);
    assert(table[3].0 == "border.selected"@);
    assert(table[4].0 == "border.disabled"@);
    assert(table[5].0 == "element.background"@);
    assert(table[6].0 == "element.selection_background"@);
    assert(table[7].0 == "drop_target.background"@);
    assert(table[8].0 == "drop_target.border"@);
    assert(table[9].0 == "debugger.accent"@);
    assert(table[10].0 == "tab_bar.background"@);
    assert(table[11].0 == "tab.inactive_background"@);
    assert(table[12].0 == "search.match_background"@);
    assert(table[13].0 == "search.active_match_background"@);
}

/// Where these roles stand.
proof fn lemma_panel_roles_rows(style: Map<Seq<char>, Json>, parts: ThemeParts, tokens: ThemeTokens)
    requires
        is_style_of(style, parts, tokens),
    ensures
        forall|i: int|
            0 <= i < 18 ==> has_color(
                style,
                (#[trigger] parts.colors.panel_table()[i]).0,
                parts.colors.panel_table()[i].2,
            ),
{
    assert forall|i: int| 0 <= i < 18 implies has_color(
        style,
        (#[trigger] parts.colors.panel_table()[i]).0,
        parts.colors.panel_table()[i].2,
    ) by {
        lemma_fixed_role(style, parts, tokens, 14 + i);
        assert(parts.colors.fixed_table()[14 + i] == parts.colors.panel_table()[i]) by {
            reveal(StyleColors::fixed_table);
        }
    }
}

/// Panels and panes have the colors that were solved for them. The thumb of the
/// minimap looks like the thumb of a scrollbar, at rest, under the pointer and held.
pub proof fn lemma_panel_roles(document: Json, parts: ThemeParts)
    requires
        is_theme_of(document, parts),
    ensures
        ({
            let style = style_of(document);
            let colors = parts.colors;
            &&& has_color(style, "panel.background"@, colors.surface@)
            &&& has_color(style, "panel.focused_border"@, colors.focus_border@)
            &&& has_color(style, "panel.indent_guide"@, colors.panel_guide@)
            &&& has_color(style, "panel.indent_guide_hover"@, colors.panel_guide_hover@)
            &&& has_color(style, "panel.indent_guide_active"@, colors.panel_guide_active@)
            &&& has_color(style, "panel.overlay_background"@, colors.panel_overlay@)
            &&& has_color(style, "panel.overlay_hover"@, colors.panel_overlay_hover@)
            &&& has_color(style, "pane.focused_border"@, colors.focus_border@)
            &&& has_color(style, "pane_group.border"@, colors.semantic.structural@)
            &&& has_color(style, "scrollbar.thumb.background"@, colors.thumb@)
            &&& has_color(style, "scrollbar.thumb.hover_background"@, colors.thumb_hover@)
            &&& has_color(style, "scrollbar.thumb.active_background"@, colors.thumb_active@)
            &&& has_color(style, "scrollbar.thumb.border"@, colors.semantic.structural@)
            &&& has_color(style, "scrollbar.track.border"@, colors.track_border@)
            &&& has_color(style, "minimap.thumb.background"@, colors.thumb@)
            &&& has_color(style, "minimap.thumb.hover_background"@, colors.thumb_hover@)
            &&& has_color(style, "minimap.thumb.active_background"@, colors.thumb_active@)
            &&& has_color(style, "minimap.thumb.border"@, colors.semantic.structural@)
        }),
{
    let tokens = lemma_style_has_tokens(document, parts);
    lemma_panel_roles_rows(style_of(document), parts, tokens);
    let table = parts.colors.panel_table();
    assert(table[0].0 == "panel.background"@);
    assert(table[1].0 == "panel.focused_border"@);
    assert(table[2].0 == "panel.indent_guide"@);
    assert(table[3].0 == "panel.indent_guide_hover"@);
    assert(table[4].0 == "panel.indent_guide_active"@);
    assert(table[5].0 == "panel.overlay_background"@);
    assert(table[6].0 == "panel.overlay_hover"@);
    assert(table[7].0 == "pane.focused_border"@);
    assert(table[8].0 == "pane_group.border"@);
    assert(table[9].0 == "scrollbar.thumb.background"@);
    assert(table[10].0 == "scrollbar.thumb.hover_background"@);
    assert(table[11].0 == "scrollbar.thumb.active_background"@);
    assert(table[12].0 == "scrollbar.thumb.border"@);
    assert(table[13].0 == "scrollbar.track.border"@);
    assert(table[14].0 == "minimap.thumb.background"@);
    assert(table[15].0 == "minimap.thumb.hover_background"@);
    assert(table[16].0 == "minimap.thumb.active_background"@);
    assert(table[17].0 == "minimap.thumb.border"@);
}

/// Where these roles stand.
proof fn lemma_editor_roles_rows(style: Map<Seq<char>, Json>, parts: ThemeParts, tokens: ThemeTokens)
    requires
        is_style_of(style, parts, tokens),
    ensures
        forall|i: int|
            0 <= i < 16 ==> has_color(
                style,
                (#[trigger] parts.colors.editor_table()[i]).0,
                parts.colors.editor_table()[i].2,
            ),
{
    assert forall|i: int| 0 <= i < 16 implies has_color(
        style,
        (#[trigger] parts.colors.editor_table()[i]).0,
        parts.colors.editor_table()[i].2,
    ) by {
        lemma_fixed_role(style, parts, tokens, 32 + i);
        assert(parts.colors.fixed_table()[32 + i] == parts.colors.editor_table()[i]) by {
            reveal(StyleColors::fixed_table);
        }
    }
}

/// Line numbers, guides, highlights and changed lines have the colors that were
/// solved for them, and what was added is told from what was deleted.
pub proof fn lemma_editor_roles(document: Json, parts: ThemeParts)
    requires
        is_theme_of(document, parts),
    ensures
        ({
            let style = style_of(document);
            let colors = parts.colors;
            &&& has_color(style, "editor.subheader.background"@, colors.chrome@)
            &&& has_color(style, "editor.debugger_active_line.background"@, colors.debugger_active@)
            &&& has_color(style, "editor.line_number"@, colors.line_number@)
            &&& has_color(style, "editor.active_line_number"@, colors.active_line_number@)
            &&& has_color(style, "editor.hover_line_number"@, colors.hover_line_number@)
            &&& has_color(style, "editor.invisible"@, colors.invisible@)
            &&& has_color(style, "editor.indent_guide"@, colors.indent_guide@)
            &&& has_color(style, "editor.indent_guide_active"@, colors.indent_guide_active@)
            &&& has_color(
                style,
                "editor.document_highlight.write_background"@,
                colors.document_write@,
            )
            &&& has_color(
                style,
                "editor.document_highlight.bracket_background"@,
                colors.document_bracket@,
            )
            &&& has_color(style, "editor.diff_hunk.added.background"@, colors.diff.added_line@)
            &&& has_color(
                style,
                "editor.diff_hunk.added.hollow_background"@,
                colors.diff.added_hollow@,
            )
            &&& has_color(style, "editor.diff_hunk.added.hollow_border"@, colors.diff.added_border@)
            &&& has_color(style, "editor.diff_hunk.deleted.background"@, colors.diff.deleted_line@)
            &&& has_color(
                style,
                "editor.diff_hunk.deleted.hollow_background"@,
                colors.diff.deleted_hollow@,
            )
            &&& has_color(
                style,
                "editor.diff_hunk.deleted.hollow_border"@,
                colors.diff.deleted_border@,
            )
        }),
{
    let tokens = lemma_style_has_tokens(document, parts);
    lemma_editor_roles_rows(style_of(document), parts, tokens);
    let table = parts.colors.editor_table();
    assert(table[0].0 == "editor.subheader.background"@);
    assert(table[1].0 == "editor.debugger_active_line.background"@);
    assert(table[2].0 == "editor.line_number"@);
    assert(table[3].0 == "editor.active_line_number"@);
    assert(table[4].0 == "editor.hover_line_number"@);
    assert(table[5].0 == "editor.invisible"@);
    assert(table[6].0 == "editor.indent_guide"@);
    assert(table[7].0 == "editor.indent_guide_active"@);
    assert(table[8].0 == "editor.document_highlight.write_background"@);
    assert(table[9].0 == "editor.document_highlight.bracket_background"@);
    assert(table[10].0 == "editor.diff_hunk.added.background"@);
    assert(table[11].0 == "editor.diff_hunk.added.hollow_background"@);
    assert(table[12].0 == "editor.diff_hunk.added.hollow_border"@);
    assert(table[13].0 == "editor.diff_hunk.deleted.background"@);
    assert(table[14].0 == "editor.diff_hunk.deleted.hollow_background"@);
    assert(table[15].0 == "editor.diff_hunk.deleted.hollow_border"@);
}

/// Where these roles stand.
proof fn lemma_terminal_roles_rows(style: Map<Seq<char>, Json>, parts: ThemeParts, tokens: ThemeTokens)
    requires
        is_style_of(style, parts, tokens),
    ensures
        forall|i: int|
            0 <= i < 29 ==> has_color(
                style,
                (#[trigger] parts.colors.terminal_table()[i]).0,
                parts.colors.terminal_table()[i].2,
            ),
{
    assert forall|i: int| 0 <= i < 29 implies has_color(
        style,
        (#[trigger] parts.colors.terminal_table()[i]).0,
        parts.colors.terminal_table()[i].2,
    ) by {
        lemma_fixed_role(style, parts, tokens, 48 + i);
        assert(parts.colors.fixed_table()[48 + i] == parts.colors.terminal_table()[i]) by {
            reveal(StyleColors::fixed_table);
        }
    }
}

/// Each of the eight terminal colors and the terminal foreground have three strengths,
/// each under its own name, and the terminal lies on the canvas.
pub proof fn lemma_terminal_roles(document: Json, parts: ThemeParts)
    requires
        is_theme_of(document, parts),
    ensures
        ({
            let style = style_of(document);
            let colors = parts.colors;
            &&& has_color(style, "terminal.background"@, colors.canvas@)
            &&& has_color(style, "terminal.ansi.background"@, colors.canvas@)
            &&& has_strengths(
                style,
                "terminal.dim_foreground"@,
                "terminal.foreground"@,
                "terminal.bright_foreground"@,
                colors.terminal.foreground,
            )
            &&& has_strengths(
                style,
                "terminal.ansi.dim_black"@,
                "terminal.ansi.black"@,
                "terminal.ansi.bright_black"@,
                colors.terminal.black,
            )
            &&& has_strengths(
                style,
                "terminal.ansi.dim_red"@,
                "terminal.ansi.red"@,
                "terminal.ansi.bright_red"@,
                colors.terminal.red,
            )
            &&& has_strengths(
                style,
                "terminal.ansi.dim_green"@,
                "terminal.ansi.green"@,
                "terminal.ansi.bright_green"@,
                colors.terminal.green,
            )
            &&& has_strengths(
                style,
                "terminal.ansi.dim_yellow"@,
                "terminal.ansi.yellow"@,
                "terminal.ansi.bright_yellow"@,
                colors.terminal.yellow,
            )
            &&& has_strengths(
                style,
                "terminal.ansi.dim_blue"@,
                "terminal.ansi.blue"@,
                "terminal.ansi.bright_blue"@,
                colors.terminal.blue,
            )
            &&& has_strengths(
                style,
                "terminal.ansi.dim_magenta"@,
                "terminal.ansi.magenta"@,
                "terminal.ansi.bright_magenta"@,
                colors.terminal.magenta,
            )
            &&& has_strengths(
                style,
                "terminal.ansi.dim_cyan"@,
                "terminal.ansi.cyan"@,
                "terminal.ansi.bright_cyan"@,
                colors.terminal.cyan,
            )
            &&& has_strengths(
                style,
                "terminal.ansi.dim_white"@,
                "terminal.ansi.white"@,
                "terminal.ansi.bright_white"@,
                colors.terminal.white,
            )
        }),
{
    let tokens = lemma_style_has_tokens(document, parts);
    lemma_terminal_roles_rows(style_of(document), parts, tokens);
    let table = parts.colors.terminal_table();
    assert(table[0].0 == "terminal.background"@);
    assert(table[1].0 == "terminal.ansi.background"@);
    assert(table[2].0 == "terminal.dim_foreground"@);
    assert(table[3].0 == "terminal.foreground"@);
    assert(table[4].0 == "terminal.bright_foreground"@);
    assert(table[5].0 == "terminal.ansi.dim_black"@);
    assert(table[6].0 == "terminal.ansi.black"@);
    assert(table[7].0 == "terminal.ansi.bright_black"@);
    assert(table[8].0 == "terminal.ansi.dim_red"@);
    assert(table[9].0 == "terminal.ansi.red"@);
    assert(table[10].0 == "terminal.ansi.bright_red"@);
    assert(table[11].0 == "terminal.ansi.dim_green"@);
    assert(table[12].0 == "terminal.ansi.green"@);
    assert(table[13].0 == "terminal.ansi.bright_green"@);
    assert(table[14].0 == "terminal.ansi.dim_yellow"@);
    assert(table[15].0 == "terminal.ansi.yellow"@);
    assert(table[16].0 == "terminal.ansi.bright_yellow"@);
    assert(table[17].0 == "terminal.ansi.dim_blue"@);
    assert(table[18].0 == "terminal.ansi.blue"@);
    assert(table[19].0 == "terminal.ansi.bright_blue"@);
    assert(table[20].0 == "terminal.ansi.dim_magenta"@);
    assert(table[21].0 == "terminal.ansi.magenta"@);
    assert(table[22].0 == "terminal.ansi.bright_magenta"@);
    assert(table[23].0 == "terminal.ansi.dim_cyan"@);
    assert(table[24].0 == "terminal.ansi.cyan"@);
    assert(table[25].0 == "terminal.ansi.bright_cyan"@);
    assert(table[26].0 == "terminal.ansi.dim_white"@);
    assert(table[27].0 == "terminal.ansi.white"@);
    assert(table[28].0 == "terminal.ansi.bright_white"@);
}

/// Where these roles stand.
proof fn lemma_version_control_roles_rows(style: Map<Seq<char>, Json>, parts: ThemeParts, tokens: ThemeTokens)
    requires
        is_style_of(style, parts, tokens),
    ensures
        forall|i: int|
            0 <= i < 10 ==> has_color(
                style,
                (#[trigger] parts.colors.version_control_table()[i]).0,
                parts.colors.version_control_table()[i].2,
            ),
{
    assert forall|i: int| 0 <= i < 10 implies has_color(
        style,
        (#[trigger] parts.colors.version_control_table()[i]).0,
        parts.colors.version_control_table()[i].2,
    ) by {
        lemma_fixed_role(style, parts, tokens, 77 + i);
        assert(parts.colors.fixed_table()[77 + i] == parts.colors.version_control_table()[i]) by {
            reveal(StyleColors::fixed_table);
        }
    }
}

/// What was added, deleted or modified has the color that was solved for it, renamed
/// files are blue, conflicts orange, and ignored files have the secondary text color.
pub proof fn lemma_version_control_roles(document: Json, parts: ThemeParts)
    requires
        is_theme_of(document, parts),
    ensures
        ({
            let style = style_of(document);
            let colors = parts.colors;
            &&& has_color(style, "version_control.added"@, colors.version_control.added@)
            &&& has_color(style, "version_control.deleted"@, colors.version_control.deleted@)
            &&& has_color(style, "version_control.modified"@, colors.version_control.modified@)
            &&& has_color(style, "version_control.renamed"@, colors.semantic.blue@)
            &&& has_color(style, "version_control.conflict"@, colors.semantic.orange@)
            &&& has_color(style, "version_control.ignored"@, colors.semantic.secondary@)
            &&& has_color(style, "version_control.word_added"@, colors.version_control.word_added@)
            &&& has_color(
                style,
                "version_control.word_deleted"@,
                colors.version_control.word_deleted@,
            )
            &&& has_color(
                style,
                "version_control.conflict_marker.ours"@,
                colors.version_control.conflict_ours@,
            )
            &&& has_color(
                style,
                "version_control.conflict_marker.theirs"@,
                colors.version_control.conflict_theirs@,
            )
        }),
{
    let tokens = lemma_style_has_tokens(document, parts);
    lemma_version_control_roles_rows(style_of(document), parts, tokens);
    let table = parts.colors.version_control_table();
    assert(table[0].0 == "version_control.added"@);
    assert(table[1].0 == "version_control.deleted"@);
    assert(table[2].0 == "version_control.modified"@);
    assert(table[3].0 == "version_control.renamed"@);
    assert(table[4].0 == "version_control.conflict"@);
    assert(table[5].0 == "version_control.ignored"@);
    assert(table[6].0 == "version_control.word_added"@);
    assert(table[7].0 == "version_control.word_deleted"@);
    assert(table[8].0 == "version_control.conflict_marker.ours"@);
    assert(table[9].0 == "version_control.conflict_marker.theirs"@);
}

/// Where these roles stand.
proof fn lemma_vim_roles_rows(style: Map<Seq<char>, Json>, parts: ThemeParts, tokens: ThemeTokens)
    requires
        is_style_of(style, parts, tokens),
    ensures
        forall|i: int|
            0 <= i < 18 ==> has_color(
                style,
                (#[trigger] parts.colors.vim_table()[i]).0,
                parts.colors.vim_table()[i].2,
            ),
{
    assert forall|i: int| 0 <= i < 18 implies has_color(
        style,
        (#[trigger] parts.colors.vim_table()[i]).0,
        parts.colors.vim_table()[i].2,
    ) by {
        lemma_fixed_role(style, parts, tokens, 87 + i);
        assert(parts.colors.fixed_table()[87 + i] == parts.colors.vim_table()[i]) by {
            reveal(StyleColors::fixed_table);
        }
    }
}

/// Each editing mode has the foreground and the background that were solved for it.
pub proof fn lemma_vim_roles(document: Json, parts: ThemeParts)
    requires
        is_theme_of(document, parts),
    ensures
        ({
            let style = style_of(document);
            let colors = parts.colors;
            &&& has_color(style, "vim.yank.background"@, colors.vim.yank@)
            &&& has_color(style, "vim.helix_jump_label.foreground"@, colors.vim.jump_label@)
            &&& has_color(style, "vim.normal.foreground"@, colors.vim.normal.foreground@)
            &&& has_color(style, "vim.normal.background"@, colors.vim.normal.background@)
            &&& has_color(style, "vim.insert.foreground"@, colors.vim.insert.foreground@)
            &&& has_color(style, "vim.insert.background"@, colors.vim.insert.background@)
            &&& has_color(style, "vim.replace.foreground"@, colors.vim.replace.foreground@)
            &&& has_color(style, "vim.replace.background"@, colors.vim.replace.background@)
            &&& has_color(style, "vim.visual.foreground"@, colors.vim.visual.foreground@)
            &&& has_color(style, "vim.visual.background"@, colors.vim.visual.background@)
            &&& has_color(style, "vim.visual_line.foreground"@, colors.vim.visual_line.foreground@)
            &&& has_color(style, "vim.visual_line.background"@, colors.vim.visual_line.background@)
            &&& has_color(
                style,
                "vim.visual_block.foreground"@,
                colors.vim.visual_block.foreground@,
            )
            &&& has_color(
                style,
                "vim.visual_block.background"@,
                colors.vim.visual_block.background@,
            )
            &&& has_color(
                style,
                "vim.helix_normal.foreground"@,
                colors.vim.helix_normal.foreground@,
            )
            &&& has_color(
                style,
                "vim.helix_normal.background"@,
                colors.vim.helix_normal.background@,
            )
            &&& has_color(
                style,
                "vim.helix_select.foreground"@,
                colors.vim.helix_select.foreground@,
            )
            &&& has_color(
                style,
                "vim.helix_select.background"@,
                colors.vim.helix_select.background@,
            )
        }),
{
    let tokens = lemma_style_has_tokens(document, parts);
    lemma_vim_roles_rows(style_of(document), parts, tokens);
    let table = parts.colors.vim_table();
    assert(table[0].0 == "vim.yank.background"@);
    assert(table[1].0 == "vim.helix_jump_label.foreground"@);
    assert(table[2].0 == "vim.normal.foreground"@);
    assert(table[3].0 == "vim.normal.background"@);
    assert(table[4].0 == "vim.insert.foreground"@);
    assert(table[5].0 == "vim.insert.background"@);
    assert(table[6].0 == "vim.replace.foreground"@);
    assert(table[7].0 == "vim.replace.background"@);
    assert(table[8].0 == "vim.visual.foreground"@);
    assert(table[9].0 == "vim.visual.background"@);
    assert(table[10].0 == "vim.visual_line.foreground"@);
    assert(table[11].0 == "vim.visual_line.background"@);
    assert(table[12].0 == "vim.visual_block.foreground"@);
    assert(table[13].0 == "vim.visual_block.background"@);
    assert(table[14].0 == "vim.helix_normal.foreground"@);
    assert(table[15].0 == "vim.helix_normal.background"@);
    assert(table[16].0 == "vim.helix_select.foreground"@);
    assert(table[17].0 == "vim.helix_select.background"@);
}
/// The statuses have the colors that were solved for them. A success looks like what
/// was created, an error like what was deleted, conflicts and modifications like a
/// warning, and renames like information; what is ignored has the foreground of what
/// is hidden.
pub proof fn lemma_status_roles(document: Json, parts: ThemeParts)
    requires
        is_theme_of(document, parts),
    ensures
        ({
            let style = style_of(document);
            let statuses = parts.colors.statuses;
            &&& has_status(style, "created"@, statuses.created)
            &&& has_status(style, "success"@, statuses.created)
            &&& has_status(style, "deleted"@, statuses.deleted)
            &&& has_status(style, "error"@, statuses.deleted)
            &&& has_status(style, "conflict"@, statuses.warning)
            &&& has_status(style, "modified"@, statuses.warning)
            &&& has_status(style, "warning"@, statuses.warning)
            &&& has_status(style, "info"@, statuses.info)
            &&& has_status(style, "renamed"@, statuses.info)
            &&& has_status(style, "predictive"@, statuses.predictive)
            &&& has_status(style, "hint"@, statuses.hint)
            &&& has_status(style, "hidden"@, statuses.hidden)
            &&& has_status(style, "unreachable"@, statuses.unreachable)
            &&& has_color(style, "ignored"@, statuses.hidden.foreground@)
            &&& has_color(style, "ignored"@ + ".background"@, statuses.ignored_background@)
            &&& has_color(style, "ignored"@ + ".border"@, statuses.ignored_border@)
        }),
{
    let style = style_of(document);
    let tokens = lemma_style_has_tokens(document, parts);
    lemma_table_lengths(parts.colors, tokens);
    let statuses = tokens.statuses.role_table();
    let table = parts.colors.role_table(tokens);
    assert forall|i: int| 0 <= i < 42 implies has_color(
        style,
        (#[trigger] statuses[i]).0,
        statuses[i].1,
    ) by {
        assert(table[i] == statuses[i]);
    }
    reveal(StyleColors::gives);
    reveal(StatusTokens::role_table);
    assert(statuses[0].0 == "created"@);
    assert(statuses[1].0 == "created"@ + ".background"@);
    assert(statuses[2].0 == "created"@ + ".border"@);
    assert(statuses[3].0 == "success"@);
    assert(statuses[4].0 == "success"@ + ".background"@);
    assert(statuses[5].0 == "success"@ + ".border"@);
    assert(statuses[6].0 == "deleted"@);
    assert(statuses[7].0 == "deleted"@ + ".background"@);
    assert(statuses[8].0 == "deleted"@ + ".border"@);
    assert(statuses[9].0 == "error"@);
    assert(statuses[10].0 == "error"@ + ".background"@);
    assert(statuses[11].0 == "error"@ + ".border"@);
    assert(statuses[12].0 == "conflict"@);
    assert(statuses[13].0 == "conflict"@ + ".background"@);
    assert(statuses[14].0 == "conflict"@ + ".border"@);
    assert(statuses[15].0 == "modified"@);
    assert(statuses[16].0 == "modified"@ + ".background"@);
    assert(statuses[17].0 == "modified"@ + ".border"@);
    assert(statuses[18].0 == "warning"@);
    assert(statuses[19].0 == "warning"@ + ".background"@);
    assert(statuses[20].0 == "warning"@ + ".border"@);
    assert(statuses[21].0 == "info"@);
    assert(statuses[22].0 == "info"@ + ".background"@);
    assert(statuses[23].0 == "info"@ + ".border"@);
    assert(statuses[24].0 == "renamed"@);
    assert(statuses[25].0 == "renamed"@ + ".background"@);
    assert(statuses[26].0 == "renamed"@ + ".border"@);
    assert(statuses[27].0 == "predictive"@);
    assert(statuses[28].0 == "predictive"@ + ".background"@);
    assert(statuses[29].0 == "predictive"@ + ".border"@);
    assert(statuses[30].0 == "hint"@);
    assert(statuses[31].0 == "hint"@ + ".background"@);
    assert(statuses[32].0 == "hint"@ + ".border"@);
    assert(statuses[33].0 == "hidden"@);
    assert(statuses[34].0 == "hidden"@ + ".background"@);
    assert(statuses[35].0 == "hidden"@ + ".border"@);
    assert(statuses[36].0 == "ignored"@);
    assert(statuses[37].0 == "ignored"@ + ".background"@);
    assert(statuses[38].0 == "ignored"@ + ".border"@);
    assert(statuses[39].0 == "unreachable"@);
    assert(statuses[40].0 == "unreachable"@ + ".background"@);
    assert(statuses[41].0 == "unreachable"@ + ".border"@);
}

/// The editor, its gutter, the active tab and the toolbar lie on the canvas; the
/// window, its bars and what is disabled have the color of the frame.
pub proof fn lemma_surface_roles(document: Json, parts: ThemeParts)
    requires
        is_theme_of(document, parts),
    ensures
        ({
            let style = style_of(document);
            let colors = parts.colors;
            &&& has_color(style, "editor.background"@, colors.canvas@)
            &&& has_color(style, "editor.gutter.background"@, colors.canvas@)
            &&& has_color(style, "tab.active_background"@, colors.canvas@)
            &&& has_color(style, "toolbar.background"@, colors.canvas@)
            &&& has_color(style, "background"@, colors.chrome@)
            &&& has_color(style, "status_bar.background"@, colors.chrome@)
            &&& has_color(style, "title_bar.background"@, colors.chrome@)
            &&& has_color(style, "elevated_surface.background"@, colors.elevated@)
            &&& has_color(style, "surface.background"@, colors.surface@)
            &&& has_color(style, "element.disabled"@, colors.chrome@)
            &&& has_color(style, "ghost_element.disabled"@, colors.chrome@)
            &&& has_color(style, "title_bar.inactive_background"@, colors.chrome@)
            &&& has_color(style, "editor.highlighted_line.background"@, colors.editor_highlighted_line@)
        }),
{
    let style = style_of(document);
    let tokens = lemma_style_has_tokens(document, parts);
    let table = tokens.role_table();
    assert forall|i: int| 0 <= i < 38 implies has_color(
        style,
        (#[trigger] table[i]).0,
        table[i].1,
    ) by {
        lemma_token_role(style, parts, tokens, i);
    }
    reveal(StyleColors::gives);
    reveal(ThemeTokens::role_table);
    assert(table[0].0 == "editor.background"@);
    assert(table[1].0 == "editor.gutter.background"@);
    assert(table[2].0 == "tab.active_background"@);
    assert(table[3].0 == "toolbar.background"@);
    assert(table[4].0 == "background"@);
    assert(table[5].0 == "status_bar.background"@);
    assert(table[6].0 == "title_bar.background"@);
    assert(table[7].0 == "elevated_surface.background"@);
    assert(table[8].0 == "surface.background"@);
    assert(table[9].0 == "element.disabled"@);
    assert(table[10].0 == "ghost_element.disabled"@);
    assert(table[11].0 == "title_bar.inactive_background"@);
    assert(table[12].0 == "editor.highlighted_line.background"@);
}

/// Text and icons of the same weight: plain text and plain icons share a color, and
/// accented text, accented icons and links share another.
pub proof fn lemma_content_roles(document: Json, parts: ThemeParts)
    requires
        is_theme_of(document, parts),
    ensures
        ({
            let style = style_of(document);
            let colors = parts.colors;
            &&& has_color(style, "text"@, colors.semantic.primary@)
            &&& has_color(style, "icon"@, colors.semantic.primary@)
            &&& has_color(style, "text.muted"@, colors.semantic.secondary@)
            &&& has_color(style, "text.placeholder"@, colors.semantic.placeholder@)
            &&& has_color(style, "text.disabled"@, colors.semantic.disabled@)
            &&& has_color(style, "icon.muted"@, colors.semantic.icon_muted@)
            &&& has_color(style, "icon.placeholder"@, colors.semantic.icon_placeholder@)
            &&& has_color(style, "icon.disabled"@, colors.semantic.icon_disabled@)
            &&& has_color(style, "text.accent"@, colors.content_accent@)
            &&& has_color(style, "icon.accent"@, colors.content_accent@)
            &&& has_color(style, "link_text.hover"@, colors.content_accent@)
            &&& has_color(style, "editor.foreground"@, colors.editor_primary@)
        }),
{
    let style = style_of(document);
    let tokens = lemma_style_has_tokens(document, parts);
    let table = tokens.role_table();
    assert forall|i: int| 0 <= i < 38 implies has_color(
        style,
        (#[trigger] table[i]).0,
        table[i].1,
    ) by {
        lemma_token_role(style, parts, tokens, i);
    }
    reveal(StyleColors::gives);
    reveal(ThemeTokens::role_table);
    assert(table[13].0 == "text"@);
    assert(table[14].0 == "icon"@);
    assert(table[15].0 == "text.muted"@);
    assert(table[16].0 == "text.placeholder"@);
    assert(table[17].0 == "text.disabled"@);
    assert(table[18].0 == "icon.muted"@);
    assert(table[19].0 == "icon.placeholder"@);
    assert(table[20].0 == "icon.disabled"@);
    assert(table[21].0 == "text.accent"@);
    assert(table[22].0 == "icon.accent"@);
    assert(table[23].0 == "link_text.hover"@);
    assert(table[24].0 == "editor.foreground"@);
}

/// Elements and ghost elements have a color of their own under the pointer and when
/// held, share the selected one, and are invisible where nothing is to be seen.
pub proof fn lemma_interaction_roles(document: Json, parts: ThemeParts)
    requires
        is_theme_of(document, parts),
    ensures
        ({
            let style = style_of(document);
            let colors = parts.colors;
            &&& has_color(style, "element.hover"@, colors.element_hover@)
            &&& has_color(style, "element.active"@, colors.element_active@)
            &&& has_color(style, "element.selected"@, colors.element_selected@)
            &&& has_color(style, "ghost_element.hover"@, colors.ghost_hover@)
            &&& has_color(style, "ghost_element.active"@, colors.ghost_active@)
            &&& has_color(style, "ghost_element.selected"@, colors.element_selected@)
            &&& has_color(style, "border.transparent"@, "#00000000"@)
            &&& has_color(style, "ghost_element.background"@, "#00000000"@)
            &&& has_color(style, "scrollbar.track.background"@, "#00000000"@)
        }),
{
    let style = style_of(document);
    let tokens = lemma_style_has_tokens(document, parts);
    let table = tokens.role_table();
    assert forall|i: int| 0 <= i < 38 implies has_color(
        style,
        (#[trigger] table[i]).0,
        table[i].1,
    ) by {
        lemma_token_role(style, parts, tokens, i);
    }
    reveal(StyleColors::gives);
    reveal(ThemeTokens::role_table);
    assert(table[25].0 == "element.hover"@);
    assert(table[26].0 == "element.active"@);
    assert(table[27].0 == "element.selected"@);
    assert(table[28].0 == "ghost_element.hover"@);
    assert(table[29].0 == "ghost_element.active"@);
    assert(table[30].0 == "ghost_element.selected"@);
    assert(table[31].0 == "border.transparent"@);
    assert(table[32].0 == "ghost_element.background"@);
    assert(table[33].0 == "scrollbar.track.background"@);
}

/// Whether the role has the channels of `color` with the alpha byte `alpha`.
pub open spec fn is_faint_line(
    style: Map<Seq<char>, Json>,
    role: Seq<char>,
    color: Seq<char>,
    alpha: u8,
) -> bool {
    text_at(style, role) matches Some(line) && {
        &&& is_hex(line)
        &&& hex_color(line).rgb() == hex_color(color).rgb()
        &&& hex_color(line).a == alpha
    }
}

/// Wrap guides are faint structural lines, the active one less faint, and the active
/// line and the highlight of a read have the colors that were solved for them.
pub proof fn lemma_derived_roles(document: Json, parts: ThemeParts)
    requires
        is_theme_of(document, parts),
    ensures
        ({
            let style = style_of(document);
            let colors = parts.colors;
            &&& has_color(style, "editor.active_line.background"@, colors.editor_active_line@)
            &&& is_faint_line(style, "editor.wrap_guide"@, colors.semantic.structural@, 0x0d)
            &&& is_faint_line(style, "editor.active_wrap_guide"@, colors.semantic.structural@, 0x1a)
            &&& has_color(style, "editor.document_highlight.read_background"@, colors.document_read@)
        }),
{
    let style = style_of(document);
    let tokens = lemma_style_has_tokens(document, parts);
    let table = tokens.role_table();
    assert forall|i: int| 0 <= i < 38 implies has_color(
        style,
        (#[trigger] table[i]).0,
        table[i].1,
    ) by {
        lemma_token_role(style, parts, tokens, i);
    }
    reveal(StyleColors::gives);
    reveal(ThemeTokens::role_table);
    let structural = hex_color(parts.colors.semantic.structural@);
    lemma_hex_round_trip(Rgba { a: 0x0d, ..structural });
    lemma_hex_round_trip(Rgba { a: 0x1a, ..structural });
    assert(table[34].0 == "editor.active_line.background"@);
    assert(table[35].0 == "editor.wrap_guide"@);
    assert(table[36].0 == "editor.active_wrap_guide"@);
    assert(table[37].0 == "editor.document_highlight.read_background"@);
}

/// Accents, players and captures keep their order and their colors: each accent
/// stands at its own place, each player has its cursor, background and selection, and
/// each capture the color, the font style and the weight that were solved under its name.
pub proof fn lemma_lists_keep_their_colors(document: Json, parts: ThemeParts)
    requires
        is_theme_of(document, parts),
        parts.is_complete(),
    ensures
        ({
            let accents = list_at(style_of(document), "accents"@)->0;
            accents.len() == 12 && forall|i: int|
                0 <= i < 12 ==> (#[trigger] accents[i]).text_view() == Some(parts.accents@[i]@)
        }),
        ({
            let players = list_at(style_of(document), "players"@)->0;
            players.len() == 8 && forall|i: int|
                0 <= i < 8 ==> {
                    let fields = (#[trigger] players[i]).object_view()->0;
                    &&& has_color(fields, "cursor"@, parts.players@[i].cursor@)
                    &&& has_color(fields, "background"@, parts.players@[i].background@)
                    &&& has_color(fields, "selection"@, parts.players@[i].selection@)
                }
        }),
        forall|i: int|
            0 <= i < parts.syntax@.len() ==> {
                let syntax = object_at(style_of(document), "syntax"@)->0;
                let fields = object_at(syntax, (#[trigger] parts.syntax@[i]).capture@)->0;
                &&& has_color(fields, "color"@, parts.syntax@[i].color@)
                &&& text_at(fields, "font_style"@) == match parts.syntax@[i].font_style {
                    Some(name) => Some(name@),
                    None => None,
                }
                &&& parts.syntax@[i].font_weight matches Some(weight) ==> fields.contains_key(
                    "font_weight"@,
                ) && fields["font_weight"@] == Json::Number(weight as u64)
                &&& parts.syntax@[i].font_weight is None ==> !fields.contains_key("font_weight"@)
            },
        text_at(theme_entry(document.object_view()->0)->0, "appearance"@) == Some(parts.mode@),
{
    let style = style_of(document);
    let tokens = lemma_style_has_tokens(document, parts);
    let players = list_at(style, "players"@)->0;
    assert forall|i: int| 0 <= i < 8 implies is_player(#[trigger] players[i], parts.players@[i]) by {}
    let syntax = object_at(style, "syntax"@)->0;
    assert forall|i: int| 0 <= i < parts.syntax@.len() implies {
        let fields = object_at(syntax, (#[trigger] parts.syntax@[i]).capture@)->0;
        &&& has_color(fields, "color"@, parts.syntax@[i].color@)
        &&& text_at(fields, "font_style"@) == match parts.syntax@[i].font_style {
            Some(name) => Some(name@),
            None => None,
        }
        &&& parts.syntax@[i].font_weight matches Some(weight) ==> fields.contains_key(
            "font_weight"@,
        ) && fields["font_weight"@] == Json::Number(weight as u64)
        &&& parts.syntax@[i].font_weight is None ==> !fields.contains_key("font_weight"@)
    } by {
        let name = capture_names()[i];
        assert(parts.syntax@[i].capture@ == name);
        assert(is_capture(syntax[name], parts.syntax@[i]));
        assert(capture_names().to_set().contains(name));
        assert(syntax.contains_key(name));
    }
}

} // verus!
