//! The kind of color that each role takes.

use crate::color::is_hex;
use crate::theme::style::{
    first_kind_fault, kind_fault, kinds_of, ModeColors, StatusColors, StatusSet, StyleColors,
    Triplet,
};
use crate::theme::tokens::{is_opaque_color, is_overlay_color};
use vstd::prelude::*;

verus! {

/// Whether the three strengths are without transparency.
pub open spec fn is_opaque_triplet(triplet: Triplet) -> bool {
    &&& is_opaque_color(triplet.dim@)
    &&& is_opaque_color(triplet.normal@)
    &&& is_opaque_color(triplet.bright@)
}

/// Whether the colors of the mode are without transparency.
pub open spec fn is_opaque_mode(mode: ModeColors) -> bool {
    is_opaque_color(mode.foreground@) && is_opaque_color(mode.background@)
}

/// Whether the colors of the status are without transparency.
pub open spec fn is_opaque_status(status: StatusColors) -> bool {
    &&& is_opaque_color(status.foreground@)
    &&& is_opaque_color(status.background@)
    &&& is_opaque_color(status.border@)
}

/// Whether every color that must hide what is below it does so, and every color that
/// must show it does.
pub open spec fn has_right_kinds(colors: StyleColors) -> bool {
    &&& is_opaque_color(colors.semantic.structural@)
    &&& is_opaque_color(colors.semantic.passive@)
    &&& is_opaque_color(colors.focus_border@)
    &&& is_opaque_color(colors.surface@)
    &&& is_opaque_color(colors.drop_target_border@)
    &&& is_opaque_color(colors.semantic.red@)
    &&& is_opaque_color(colors.chrome@)
    &&& is_opaque_color(colors.tab_inactive@)
    &&& is_opaque_color(colors.panel_guide@)
    &&& is_opaque_color(colors.panel_guide_hover@)
    &&& is_opaque_color(colors.panel_guide_active@)
    &&& is_opaque_color(colors.panel_overlay@)
    &&& is_opaque_color(colors.panel_overlay_hover@)
    &&& is_opaque_color(colors.track_border@)
    &&& is_opaque_color(colors.line_number@)
    &&& is_opaque_color(colors.active_line_number@)
    &&& is_opaque_color(colors.hover_line_number@)
    &&& is_opaque_color(colors.invisible@)
    &&& is_opaque_color(colors.indent_guide@)
    &&& is_opaque_color(colors.indent_guide_active@)
    &&& is_opaque_color(colors.canvas@)
    &&& is_opaque_color(colors.version_control.added@)
    &&& is_opaque_color(colors.version_control.deleted@)
    &&& is_opaque_color(colors.version_control.modified@)
    &&& is_opaque_color(colors.semantic.blue@)
    &&& is_opaque_color(colors.semantic.orange@)
    &&& is_opaque_color(colors.semantic.secondary@)
    &&& is_opaque_color(colors.vim.jump_label@)
    &&& is_opaque_color(colors.elevated@)
    &&& is_opaque_color(colors.semantic.primary@)
    &&& is_opaque_color(colors.semantic.placeholder@)
    &&& is_opaque_color(colors.semantic.disabled@)
    &&& is_opaque_color(colors.semantic.icon_muted@)
    &&& is_opaque_color(colors.semantic.icon_placeholder@)
    &&& is_opaque_color(colors.semantic.icon_disabled@)
    &&& is_opaque_color(colors.content_accent@)
    &&& is_opaque_color(colors.editor_primary@)
    &&& is_opaque_triplet(colors.terminal.foreground)
    &&& is_opaque_triplet(colors.terminal.black)
    &&& is_opaque_triplet(colors.terminal.red)
    &&& is_opaque_triplet(colors.terminal.green)
    &&& is_opaque_triplet(colors.terminal.yellow)
    &&& is_opaque_triplet(colors.terminal.blue)
    &&& is_opaque_triplet(colors.terminal.magenta)
    &&& is_opaque_triplet(colors.terminal.cyan)
    &&& is_opaque_triplet(colors.terminal.white)
    &&& is_opaque_mode(colors.vim.normal)
    &&& is_opaque_mode(colors.vim.insert)
    &&& is_opaque_mode(colors.vim.replace)
    &&& is_opaque_mode(colors.vim.visual)
    &&& is_opaque_mode(colors.vim.visual_line)
    &&& is_opaque_mode(colors.vim.visual_block)
    &&& is_opaque_mode(colors.vim.helix_normal)
    &&& is_opaque_mode(colors.vim.helix_select)
    &&& is_opaque_status(colors.statuses.created)
    &&& is_opaque_status(colors.statuses.deleted)
    &&& is_opaque_status(colors.statuses.warning)
    &&& is_opaque_status(colors.statuses.info)
    &&& is_opaque_status(colors.statuses.predictive)
    &&& is_opaque_status(colors.statuses.hint)
    &&& is_opaque_status(colors.statuses.hidden)
    &&& is_opaque_status(colors.statuses.unreachable)
    &&& is_opaque_color(colors.statuses.ignored_background@)
    &&& is_opaque_color(colors.statuses.ignored_border@)
    &&& is_overlay_color(colors.element_selected@)
    &&& is_overlay_color(colors.drop_target@)
    &&& is_overlay_color(colors.search_match@)
    &&& is_overlay_color(colors.search_active@)
    &&& is_overlay_color(colors.thumb@)
    &&& is_overlay_color(colors.thumb_hover@)
    &&& is_overlay_color(colors.thumb_active@)
    &&& is_overlay_color(colors.debugger_active@)
    &&& is_overlay_color(colors.document_write@)
    &&& is_overlay_color(colors.document_bracket@)
    &&& is_overlay_color(colors.diff.added_line@)
    &&& is_overlay_color(colors.diff.added_hollow@)
    &&& is_overlay_color(colors.diff.added_border@)
    &&& is_overlay_color(colors.diff.deleted_line@)
    &&& is_overlay_color(colors.diff.deleted_hollow@)
    &&& is_overlay_color(colors.diff.deleted_border@)
    &&& is_overlay_color(colors.version_control.word_added@)
    &&& is_overlay_color(colors.version_control.word_deleted@)
    &&& is_overlay_color(colors.version_control.conflict_ours@)
    &&& is_overlay_color(colors.version_control.conflict_theirs@)
    &&& is_overlay_color(colors.vim.yank@)
    &&& is_overlay_color(colors.editor_highlighted_line@)
    &&& is_overlay_color(colors.element_hover@)
    &&& is_overlay_color(colors.element_active@)
    &&& is_overlay_color(colors.ghost_hover@)
    &&& is_overlay_color(colors.ghost_active@)
    &&& is_overlay_color(colors.editor_active_line@)
    &&& is_overlay_color(colors.document_read@)
}

proof fn lemma_kinds_in_a_row(first: Seq<(bool, Seq<char>)>, second: Seq<(bool, Seq<char>)>)
    ensures
        first_kind_fault(first + second) is None <==> first_kind_fault(first) is None
            && first_kind_fault(second) is None,
    decreases first.len(),
{
    if first.len() == 0 {
        assert(first + second =~= second);
    } else {
        assert((first + second).drop_first() =~= first.drop_first() + second);
        lemma_kinds_in_a_row(first.drop_first(), second);
    }
}

proof fn lemma_all_kinds_are_right(checks: Seq<(bool, Seq<char>)>)
    ensures
        first_kind_fault(checks) is None <==> forall|i: int|
            0 <= i < checks.len() ==> kind_fault((#[trigger] checks[i]).0, checks[i].1) is None,
    decreases checks.len(),
{
    if checks.len() > 0 {
        let rest = checks.drop_first();
        lemma_all_kinds_are_right(rest);
        if first_kind_fault(checks) is None {
            assert forall|i: int| 0 <= i < checks.len() implies kind_fault(
                (#[trigger] checks[i]).0,
                checks[i].1,
            ) is None by {
                if i > 0 {
                    assert(rest[i - 1] == checks[i]);
                }
            }
        } else {
            assert(kind_fault(checks[0].0, checks[0].1) is Some || first_kind_fault(rest) is Some);
            if first_kind_fault(rest) is Some {
                let at = choose|i: int|
                    0 <= i < rest.len() && kind_fault((#[trigger] rest[i]).0, rest[i].1) is Some;
                assert(checks[at + 1] == rest[at]);
            }
        }
    }
}

proof fn lemma_frame_kinds(colors: StyleColors)
    ensures
        first_kind_fault(kinds_of(colors.frame_table())) is None <==> {
            &&& is_opaque_color(colors.semantic.structural@)
            &&& is_opaque_color(colors.semantic.passive@)
            &&& is_opaque_color(colors.focus_border@)
            &&& is_opaque_color(colors.surface@)
            &&& is_overlay_color(colors.element_selected@)
            &&& is_overlay_color(colors.drop_target@)
            &&& is_opaque_color(colors.drop_target_border@)
            &&& is_opaque_color(colors.semantic.red@)
            &&& is_opaque_color(colors.chrome@)
            &&& is_opaque_color(colors.tab_inactive@)
            &&& is_overlay_color(colors.search_match@)
            &&& is_overlay_color(colors.search_active@)
        },
{
    let checks = kinds_of(colors.frame_table());
    lemma_all_kinds_are_right(checks);
    assert(checks[0] == (true, colors.semantic.structural@));
    assert(checks[1] == (true, colors.semantic.passive@));
    assert(checks[2] == (true, colors.focus_border@));
    assert(checks[3] == (true, colors.focus_border@));
    assert(checks[4] == (true, colors.semantic.passive@));
    assert(checks[5] == (true, colors.surface@));
    assert(checks[6] == (false, colors.element_selected@));
    assert(checks[7] == (false, colors.drop_target@));
    assert(checks[8] == (true, colors.drop_target_border@));
    assert(checks[9] == (true, colors.semantic.red@));
    assert(checks[10] == (true, colors.chrome@));
    assert(checks[11] == (true, colors.tab_inactive@));
    assert(checks[12] == (false, colors.search_match@));
    assert(checks[13] == (false, colors.search_active@));
}

proof fn lemma_panel_kinds(colors: StyleColors)
    ensures
        first_kind_fault(kinds_of(colors.panel_table())) is None <==> {
            &&& is_opaque_color(colors.surface@)
            &&& is_opaque_color(colors.focus_border@)
            &&& is_opaque_color(colors.panel_guide@)
            &&& is_opaque_color(colors.panel_guide_hover@)
            &&& is_opaque_color(colors.panel_guide_active@)
            &&& is_opaque_color(colors.panel_overlay@)
            &&& is_opaque_color(colors.panel_overlay_hover@)
            &&& is_opaque_color(colors.semantic.structural@)
            &&& is_overlay_color(colors.thumb@)
            &&& is_overlay_color(colors.thumb_hover@)
            &&& is_overlay_color(colors.thumb_active@)
            &&& is_opaque_color(colors.track_border@)
        },
{
    let checks = kinds_of(colors.panel_table());
    lemma_all_kinds_are_right(checks);
    assert(checks[0] == (true, colors.surface@));
    assert(checks[1] == (true, colors.focus_border@));
    assert(checks[2] == (true, colors.panel_guide@));
    assert(checks[3] == (true, colors.panel_guide_hover@));
    assert(checks[4] == (true, colors.panel_guide_active@));
    assert(checks[5] == (true, colors.panel_overlay@));
    assert(checks[6] == (true, colors.panel_overlay_hover@));
    assert(checks[7] == (true, colors.focus_border@));
    assert(checks[8] == (true, colors.semantic.structural@));
    assert(checks[9] == (false, colors.thumb@));
    assert(checks[10] == (false, colors.thumb_hover@));
    assert(checks[11] == (false, colors.thumb_active@));
    assert(checks[12] == (true, colors.semantic.structural@));
    assert(checks[13] == (true, colors.track_border@));
    assert(checks[14] == (false, colors.thumb@));
    assert(checks[15] == (false, colors.thumb_hover@));
    assert(checks[16] == (false, colors.thumb_active@));
    assert(checks[17] == (true, colors.semantic.structural@));
}

proof fn lemma_editor_kinds(colors: StyleColors)
    ensures
        first_kind_fault(kinds_of(colors.editor_table())) is None <==> {
            &&& is_opaque_color(colors.chrome@)
            &&& is_overlay_color(colors.debugger_active@)
            &&& is_opaque_color(colors.line_number@)
            &&& is_opaque_color(colors.active_line_number@)
            &&& is_opaque_color(colors.hover_line_number@)
            &&& is_opaque_color(colors.invisible@)
            &&& is_opaque_color(colors.indent_guide@)
            &&& is_opaque_color(colors.indent_guide_active@)
            &&& is_overlay_color(colors.document_write@)
            &&& is_overlay_color(colors.document_bracket@)
            &&& is_overlay_color(colors.diff.added_line@)
            &&& is_overlay_color(colors.diff.added_hollow@)
            &&& is_overlay_color(colors.diff.added_border@)
            &&& is_overlay_color(colors.diff.deleted_line@)
            &&& is_overlay_color(colors.diff.deleted_hollow@)
            &&& is_overlay_color(colors.diff.deleted_border@)
        },
{
    let checks = kinds_of(colors.editor_table());
    lemma_all_kinds_are_right(checks);
    assert(checks[0] == (true, colors.chrome@));
    assert(checks[1] == (false, colors.debugger_active@));
    assert(checks[2] == (true, colors.line_number@));
    assert(checks[3] == (true, colors.active_line_number@));
    assert(checks[4] == (true, colors.hover_line_number@));
    assert(checks[5] == (true, colors.invisible@));
    assert(checks[6] == (true, colors.indent_guide@));
    assert(checks[7] == (true, colors.indent_guide_active@));
    assert(checks[8] == (false, colors.document_write@));
    assert(checks[9] == (false, colors.document_bracket@));
    assert(checks[10] == (false, colors.diff.added_line@));
    assert(checks[11] == (false, colors.diff.added_hollow@));
    assert(checks[12] == (false, colors.diff.added_border@));
    assert(checks[13] == (false, colors.diff.deleted_line@));
    assert(checks[14] == (false, colors.diff.deleted_hollow@));
    assert(checks[15] == (false, colors.diff.deleted_border@));
}

proof fn lemma_terminal_kinds(colors: StyleColors)
    ensures
        first_kind_fault(kinds_of(colors.terminal_table())) is None <==> {
            &&& is_opaque_color(colors.canvas@)
            &&& is_opaque_color(colors.terminal.foreground.dim@)
            &&& is_opaque_color(colors.terminal.foreground.normal@)
            &&& is_opaque_color(colors.terminal.foreground.bright@)
            &&& is_opaque_color(colors.terminal.black.dim@)
            &&& is_opaque_color(colors.terminal.black.normal@)
            &&& is_opaque_color(colors.terminal.black.bright@)
            &&& is_opaque_color(colors.terminal.red.dim@)
            &&& is_opaque_color(colors.terminal.red.normal@)
            &&& is_opaque_color(colors.terminal.red.bright@)
            &&& is_opaque_color(colors.terminal.green.dim@)
            &&& is_opaque_color(colors.terminal.green.normal@)
            &&& is_opaque_color(colors.terminal.green.bright@)
            &&& is_opaque_color(colors.terminal.yellow.dim@)
            &&& is_opaque_color(colors.terminal.yellow.normal@)
            &&& is_opaque_color(colors.terminal.yellow.bright@)
            &&& is_opaque_color(colors.terminal.blue.dim@)
            &&& is_opaque_color(colors.terminal.blue.normal@)
            &&& is_opaque_color(colors.terminal.blue.bright@)
            &&& is_opaque_color(colors.terminal.magenta.dim@)
            &&& is_opaque_color(colors.terminal.magenta.normal@)
            &&& is_opaque_color(colors.terminal.magenta.bright@)
            &&& is_opaque_color(colors.terminal.cyan.dim@)
            &&& is_opaque_color(colors.terminal.cyan.normal@)
            &&& is_opaque_color(colors.terminal.cyan.bright@)
            &&& is_opaque_color(colors.terminal.white.dim@)
            &&& is_opaque_color(colors.terminal.white.normal@)
            &&& is_opaque_color(colors.terminal.white.bright@)
        },
{
    let checks = kinds_of(colors.terminal_table());
    lemma_all_kinds_are_right(checks);
    assert(checks[0] == (true, colors.canvas@));
    assert(checks[1] == (true, colors.canvas@));
    assert(checks[2] == (true, colors.terminal.foreground.dim@));
    assert(checks[3] == (true, colors.terminal.foreground.normal@));
    assert(checks[4] == (true, colors.terminal.foreground.bright@));
    assert(checks[5] == (true, colors.terminal.black.dim@));
    assert(checks[6] == (true, colors.terminal.black.normal@));
    assert(checks[7] == (true, colors.terminal.black.bright@));
    assert(checks[8] == (true, colors.terminal.red.dim@));
    assert(checks[9] == (true, colors.terminal.red.normal@));
    assert(checks[10] == (true, colors.terminal.red.bright@));
    assert(checks[11] == (true, colors.terminal.green.dim@));
    assert(checks[12] == (true, colors.terminal.green.normal@));
    assert(checks[13] == (true, colors.terminal.green.bright@));
    assert(checks[14] == (true, colors.terminal.yellow.dim@));
    assert(checks[15] == (true, colors.terminal.yellow.normal@));
    assert(checks[16] == (true, colors.terminal.yellow.bright@));
    assert(checks[17] == (true, colors.terminal.blue.dim@));
    assert(checks[18] == (true, colors.terminal.blue.normal@));
    assert(checks[19] == (true, colors.terminal.blue.bright@));
    assert(checks[20] == (true, colors.terminal.magenta.dim@));
    assert(checks[21] == (true, colors.terminal.magenta.normal@));
    assert(checks[22] == (true, colors.terminal.magenta.bright@));
    assert(checks[23] == (true, colors.terminal.cyan.dim@));
    assert(checks[24] == (true, colors.terminal.cyan.normal@));
    assert(checks[25] == (true, colors.terminal.cyan.bright@));
    assert(checks[26] == (true, colors.terminal.white.dim@));
    assert(checks[27] == (true, colors.terminal.white.normal@));
    assert(checks[28] == (true, colors.terminal.white.bright@));
}

proof fn lemma_version_control_kinds(colors: StyleColors)
    ensures
        first_kind_fault(kinds_of(colors.version_control_table())) is None <==> {
            &&& is_opaque_color(colors.version_control.added@)
            &&& is_opaque_color(colors.version_control.deleted@)
            &&& is_opaque_color(colors.version_control.modified@)
            &&& is_opaque_color(colors.semantic.blue@)
            &&& is_opaque_color(colors.semantic.orange@)
            &&& is_opaque_color(colors.semantic.secondary@)
            &&& is_overlay_color(colors.version_control.word_added@)
            &&& is_overlay_color(colors.version_control.word_deleted@)
            &&& is_overlay_color(colors.version_control.conflict_ours@)
            &&& is_overlay_color(colors.version_control.conflict_theirs@)
        },
{
    let checks = kinds_of(colors.version_control_table());
    lemma_all_kinds_are_right(checks);
    assert(checks[0] == (true, colors.version_control.added@));
    assert(checks[1] == (true, colors.version_control.deleted@));
    assert(checks[2] == (true, colors.version_control.modified@));
    assert(checks[3] == (true, colors.semantic.blue@));
    assert(checks[4] == (true, colors.semantic.orange@));
    assert(checks[5] == (true, colors.semantic.secondary@));
    assert(checks[6] == (false, colors.version_control.word_added@));
    assert(checks[7] == (false, colors.version_control.word_deleted@));
    assert(checks[8] == (false, colors.version_control.conflict_ours@));
    assert(checks[9] == (false, colors.version_control.conflict_theirs@));
}

proof fn lemma_vim_kinds(colors: StyleColors)
    ensures
        first_kind_fault(kinds_of(colors.vim_table())) is None <==> {
            &&& is_overlay_color(colors.vim.yank@)
            &&& is_opaque_color(colors.vim.jump_label@)
            &&& is_opaque_color(colors.vim.normal.foreground@)
            &&& is_opaque_color(colors.vim.normal.background@)
            &&& is_opaque_color(colors.vim.insert.foreground@)
            &&& is_opaque_color(colors.vim.insert.background@)
            &&& is_opaque_color(colors.vim.replace.foreground@)
            &&& is_opaque_color(colors.vim.replace.background@)
            &&& is_opaque_color(colors.vim.visual.foreground@)
            &&& is_opaque_color(colors.vim.visual.background@)
            &&& is_opaque_color(colors.vim.visual_line.foreground@)
            &&& is_opaque_color(colors.vim.visual_line.background@)
            &&& is_opaque_color(colors.vim.visual_block.foreground@)
            &&& is_opaque_color(colors.vim.visual_block.background@)
            &&& is_opaque_color(colors.vim.helix_normal.foreground@)
            &&& is_opaque_color(colors.vim.helix_normal.background@)
            &&& is_opaque_color(colors.vim.helix_select.foreground@)
            &&& is_opaque_color(colors.vim.helix_select.background@)
        },
{
    let checks = kinds_of(colors.vim_table());
    lemma_all_kinds_are_right(checks);
    assert(checks[0] == (false, colors.vim.yank@));
    assert(checks[1] == (true, colors.vim.jump_label@));
    assert(checks[2] == (true, colors.vim.normal.foreground@));
    assert(checks[3] == (true, colors.vim.normal.background@));
    assert(checks[4] == (true, colors.vim.insert.foreground@));
    assert(checks[5] == (true, colors.vim.insert.background@));
    assert(checks[6] == (true, colors.vim.replace.foreground@));
    assert(checks[7] == (true, colors.vim.replace.background@));
    assert(checks[8] == (true, colors.vim.visual.foreground@));
    assert(checks[9] == (true, colors.vim.visual.background@));
    assert(checks[10] == (true, colors.vim.visual_line.foreground@));
    assert(checks[11] == (true, colors.vim.visual_line.background@));
    assert(checks[12] == (true, colors.vim.visual_block.foreground@));
    assert(checks[13] == (true, colors.vim.visual_block.background@));
    assert(checks[14] == (true, colors.vim.helix_normal.foreground@));
    assert(checks[15] == (true, colors.vim.helix_normal.background@));
    assert(checks[16] == (true, colors.vim.helix_select.foreground@));
    assert(checks[17] == (true, colors.vim.helix_select.background@));
}

proof fn lemma_fixed_kinds(colors: StyleColors)
    ensures
        first_kind_fault(kinds_of(colors.fixed_table())) is None <==> {
            &&& first_kind_fault(kinds_of(colors.frame_table())) is None
            &&& first_kind_fault(kinds_of(colors.panel_table())) is None
            &&& first_kind_fault(kinds_of(colors.editor_table())) is None
            &&& first_kind_fault(kinds_of(colors.terminal_table())) is None
            &&& first_kind_fault(kinds_of(colors.version_control_table())) is None
            &&& first_kind_fault(kinds_of(colors.vim_table())) is None
        },
{
    let fixed = colors.fixed_table();
    reveal(StyleColors::fixed_table);
    let frame = colors.frame_table();
    let panel = frame + colors.panel_table();
    let editor = panel + colors.editor_table();
    let terminal = editor + colors.terminal_table();
    let version_control = terminal + colors.version_control_table();
    assert(fixed == version_control + colors.vim_table());
    assert(kinds_of(panel) =~= kinds_of(frame) + kinds_of(colors.panel_table()));
    lemma_kinds_in_a_row(kinds_of(frame), kinds_of(colors.panel_table()));
    assert(kinds_of(editor) =~= kinds_of(panel) + kinds_of(colors.editor_table()));
    lemma_kinds_in_a_row(kinds_of(panel), kinds_of(colors.editor_table()));
    assert(kinds_of(terminal) =~= kinds_of(editor) + kinds_of(colors.terminal_table()));
    lemma_kinds_in_a_row(kinds_of(editor), kinds_of(colors.terminal_table()));
    assert(kinds_of(version_control) =~= kinds_of(terminal) + kinds_of(
        colors.version_control_table(),
    ));
    lemma_kinds_in_a_row(kinds_of(terminal), kinds_of(colors.version_control_table()));
    assert(kinds_of(fixed) =~= kinds_of(version_control) + kinds_of(colors.vim_table()));
    lemma_kinds_in_a_row(kinds_of(version_control), kinds_of(colors.vim_table()));
}

proof fn lemma_status_kinds(statuses: StatusSet)
    ensures
        statuses.fault() is None <==> {
            &&& is_opaque_status(statuses.created)
            &&& is_opaque_status(statuses.deleted)
            &&& is_opaque_status(statuses.warning)
            &&& is_opaque_status(statuses.info)
            &&& is_opaque_status(statuses.predictive)
            &&& is_opaque_status(statuses.hint)
            &&& is_opaque_status(statuses.hidden)
            &&& is_opaque_status(statuses.unreachable)
            &&& is_opaque_color(statuses.ignored_background@)
            &&& is_opaque_color(statuses.ignored_border@)
        },
{
}

proof fn lemma_token_kinds(colors: StyleColors)
    ensures
        colors.surfaces_fault() is None <==> {
            &&& is_opaque_color(colors.canvas@)
            &&& is_opaque_color(colors.chrome@)
            &&& is_opaque_color(colors.elevated@)
            &&& is_opaque_color(colors.surface@)
            &&& is_overlay_color(colors.editor_highlighted_line@)
        },
        colors.content_fault() is None <==> {
            &&& is_opaque_color(colors.semantic.primary@)
            &&& is_opaque_color(colors.semantic.secondary@)
            &&& is_opaque_color(colors.semantic.placeholder@)
            &&& is_opaque_color(colors.semantic.disabled@)
            &&& is_opaque_color(colors.semantic.icon_muted@)
            &&& is_opaque_color(colors.semantic.icon_placeholder@)
            &&& is_opaque_color(colors.semantic.icon_disabled@)
            &&& is_opaque_color(colors.content_accent@)
            &&& is_opaque_color(colors.editor_primary@)
        },
        colors.interactions_fault() is None <==> {
            &&& is_overlay_color(colors.element_hover@)
            &&& is_overlay_color(colors.element_active@)
            &&& is_overlay_color(colors.element_selected@)
            &&& is_overlay_color(colors.ghost_hover@)
            &&& is_overlay_color(colors.ghost_active@)
        },
        colors.derived_fault() is None <==> is_overlay_color(colors.editor_active_line@)
            && is_overlay_color(colors.document_read@),
{
}

proof fn lemma_fault_parts(colors: StyleColors)
    ensures
        colors.fault() is None <==> {
            &&& is_hex(colors.semantic.structural@)
            &&& colors.surfaces_fault() is None
            &&& colors.content_fault() is None
            &&& colors.interactions_fault() is None
            &&& colors.statuses.fault() is None
            &&& colors.derived_fault() is None
            &&& first_kind_fault(kinds_of(colors.fixed_table())) is None
        },
{
    reveal(StyleColors::token_fault);
}

/// A theme is made exactly where every color is of the kind that its roles take: text,
/// icons, surfaces, borders, terminal colors, modes and statuses hide what is below
/// them; highlights, thumbs, interaction states and change markers show it.
pub proof fn lemma_theme_is_made_of_right_kinds(colors: StyleColors)
    ensures
        colors.fault() is None <==> has_right_kinds(colors),
{
    lemma_fault_parts(colors);
    lemma_token_kinds(colors);
    lemma_status_kinds(colors.statuses);
    lemma_fixed_kinds(colors);
    lemma_frame_kinds(colors);
    lemma_panel_kinds(colors);
    lemma_editor_kinds(colors);
    lemma_terminal_kinds(colors);
    lemma_version_control_kinds(colors);
    lemma_vim_kinds(colors);
}

} // verus!
