//! The roles that a style is filled with are exactly the color fields of the schema.

use crate::constants::{
    CHROME_FIELDS, EDITOR_FIELDS, FOUNDATION_FIELDS, LINK_VC_FIELDS, TERMINAL_FIELDS, VIM_FIELDS,
};
use crate::text::slice_views;
use crate::theme::document::{is_field_of_status, is_fixed_field, is_status_field};
use crate::theme::roles::STYLE_ROLES;
use vstd::prelude::*;

verus! {

proof fn lemma_fixed_roles_from_42(index: int)
    requires
        42 <= index < 78,
    ensures
        is_fixed_field(STYLE_ROLES@[index]@),
{
    if index == 42 {
        assert(slice_views(FOUNDATION_FIELDS@)[0] == "border"@);
    } else if index == 43 {
        assert(slice_views(FOUNDATION_FIELDS@)[1] == "border.variant"@);
    } else if index == 44 {
        assert(slice_views(FOUNDATION_FIELDS@)[2] == "border.focused"@);
    } else if index == 45 {
        assert(slice_views(FOUNDATION_FIELDS@)[3] == "border.selected"@);
    } else if index == 46 {
        assert(slice_views(FOUNDATION_FIELDS@)[5] == "border.disabled"@);
    } else if index == 47 {
        assert(slice_views(FOUNDATION_FIELDS@)[9] == "element.background"@);
    } else if index == 48 {
        assert(slice_views(FOUNDATION_FIELDS@)[14] == "element.selection_background"@);
    } else if index == 49 {
        assert(slice_views(FOUNDATION_FIELDS@)[15] == "drop_target.background"@);
    } else if index == 50 {
        assert(slice_views(FOUNDATION_FIELDS@)[16] == "drop_target.border"@);
    } else if index == 51 {
        assert(slice_views(FOUNDATION_FIELDS@)[32] == "debugger.accent"@);
    } else if index == 52 {
        assert(slice_views(CHROME_FIELDS@)[4] == "tab_bar.background"@);
    } else if index == 53 {
        assert(slice_views(CHROME_FIELDS@)[5] == "tab.inactive_background"@);
    } else if index == 54 {
        assert(slice_views(CHROME_FIELDS@)[7] == "search.match_background"@);
    } else if index == 55 {
        assert(slice_views(CHROME_FIELDS@)[8] == "search.active_match_background"@);
    } else if index == 56 {
        assert(slice_views(CHROME_FIELDS@)[9] == "panel.background"@);
    } else if index == 57 {
        assert(slice_views(CHROME_FIELDS@)[10] == "panel.focused_border"@);
    } else if index == 58 {
        assert(slice_views(CHROME_FIELDS@)[11] == "panel.indent_guide"@);
    } else if index == 59 {
        assert(slice_views(CHROME_FIELDS@)[12] == "panel.indent_guide_hover"@);
    } else if index == 60 {
        assert(slice_views(CHROME_FIELDS@)[13] == "panel.indent_guide_active"@);
    } else if index == 61 {
        assert(slice_views(CHROME_FIELDS@)[14] == "panel.overlay_background"@);
    } else if index == 62 {
        assert(slice_views(CHROME_FIELDS@)[15] == "panel.overlay_hover"@);
    } else if index == 63 {
        assert(slice_views(CHROME_FIELDS@)[16] == "pane.focused_border"@);
    } else if index == 64 {
        assert(slice_views(CHROME_FIELDS@)[17] == "pane_group.border"@);
    } else if index == 65 {
        assert(slice_views(CHROME_FIELDS@)[18] == "scrollbar.thumb.background"@);
    } else if index == 66 {
        assert(slice_views(CHROME_FIELDS@)[19] == "scrollbar.thumb.hover_background"@);
    } else if index == 67 {
        assert(slice_views(CHROME_FIELDS@)[20] == "scrollbar.thumb.active_background"@);
    } else if index == 68 {
        assert(slice_views(CHROME_FIELDS@)[21] == "scrollbar.thumb.border"@);
    } else if index == 69 {
        assert(slice_views(CHROME_FIELDS@)[23] == "scrollbar.track.border"@);
    } else if index == 70 {
        assert(slice_views(CHROME_FIELDS@)[24] == "minimap.thumb.background"@);
    } else if index == 71 {
        assert(slice_views(CHROME_FIELDS@)[25] == "minimap.thumb.hover_background"@);
    } else if index == 72 {
        assert(slice_views(CHROME_FIELDS@)[26] == "minimap.thumb.active_background"@);
    } else if index == 73 {
        assert(slice_views(CHROME_FIELDS@)[27] == "minimap.thumb.border"@);
    } else if index == 74 {
        assert(slice_views(EDITOR_FIELDS@)[3] == "editor.subheader.background"@);
    } else if index == 75 {
        assert(slice_views(EDITOR_FIELDS@)[6] == "editor.debugger_active_line.background"@);
    } else if index == 76 {
        assert(slice_views(EDITOR_FIELDS@)[7] == "editor.line_number"@);
    } else if index == 77 {
        assert(slice_views(EDITOR_FIELDS@)[8] == "editor.active_line_number"@);
    }
}

proof fn lemma_fixed_roles_from_78(index: int)
    requires
        78 <= index < 114,
    ensures
        is_fixed_field(STYLE_ROLES@[index]@),
{
    if index == 78 {
        assert(slice_views(EDITOR_FIELDS@)[9] == "editor.hover_line_number"@);
    } else if index == 79 {
        assert(slice_views(EDITOR_FIELDS@)[10] == "editor.invisible"@);
    } else if index == 80 {
        assert(slice_views(EDITOR_FIELDS@)[13] == "editor.indent_guide"@);
    } else if index == 81 {
        assert(slice_views(EDITOR_FIELDS@)[14] == "editor.indent_guide_active"@);
    } else if index == 82 {
        assert(slice_views(EDITOR_FIELDS@)[16] == "editor.document_highlight.write_background"@);
    } else if index == 83 {
        assert(slice_views(EDITOR_FIELDS@)[17] == "editor.document_highlight.bracket_background"@);
    } else if index == 84 {
        assert(slice_views(EDITOR_FIELDS@)[18] == "editor.diff_hunk.added.background"@);
    } else if index == 85 {
        assert(slice_views(EDITOR_FIELDS@)[19] == "editor.diff_hunk.added.hollow_background"@);
    } else if index == 86 {
        assert(slice_views(EDITOR_FIELDS@)[20] == "editor.diff_hunk.added.hollow_border"@);
    } else if index == 87 {
        assert(slice_views(EDITOR_FIELDS@)[21] == "editor.diff_hunk.deleted.background"@);
    } else if index == 88 {
        assert(slice_views(EDITOR_FIELDS@)[22] == "editor.diff_hunk.deleted.hollow_background"@);
    } else if index == 89 {
        assert(slice_views(EDITOR_FIELDS@)[23] == "editor.diff_hunk.deleted.hollow_border"@);
    } else if index == 90 {
        assert(slice_views(TERMINAL_FIELDS@)[0] == "terminal.background"@);
    } else if index == 91 {
        assert(slice_views(TERMINAL_FIELDS@)[2] == "terminal.ansi.background"@);
    } else if index == 92 {
        assert(slice_views(TERMINAL_FIELDS@)[4] == "terminal.dim_foreground"@);
    } else if index == 93 {
        assert(slice_views(TERMINAL_FIELDS@)[1] == "terminal.foreground"@);
    } else if index == 94 {
        assert(slice_views(TERMINAL_FIELDS@)[3] == "terminal.bright_foreground"@);
    } else if index == 95 {
        assert(slice_views(TERMINAL_FIELDS@)[7] == "terminal.ansi.dim_black"@);
    } else if index == 96 {
        assert(slice_views(TERMINAL_FIELDS@)[5] == "terminal.ansi.black"@);
    } else if index == 97 {
        assert(slice_views(TERMINAL_FIELDS@)[6] == "terminal.ansi.bright_black"@);
    } else if index == 98 {
        assert(slice_views(TERMINAL_FIELDS@)[10] == "terminal.ansi.dim_red"@);
    } else if index == 99 {
        assert(slice_views(TERMINAL_FIELDS@)[8] == "terminal.ansi.red"@);
    } else if index == 100 {
        assert(slice_views(TERMINAL_FIELDS@)[9] == "terminal.ansi.bright_red"@);
    } else if index == 101 {
        assert(slice_views(TERMINAL_FIELDS@)[13] == "terminal.ansi.dim_green"@);
    } else if index == 102 {
        assert(slice_views(TERMINAL_FIELDS@)[11] == "terminal.ansi.green"@);
    } else if index == 103 {
        assert(slice_views(TERMINAL_FIELDS@)[12] == "terminal.ansi.bright_green"@);
    } else if index == 104 {
        assert(slice_views(TERMINAL_FIELDS@)[16] == "terminal.ansi.dim_yellow"@);
    } else if index == 105 {
        assert(slice_views(TERMINAL_FIELDS@)[14] == "terminal.ansi.yellow"@);
    } else if index == 106 {
        assert(slice_views(TERMINAL_FIELDS@)[15] == "terminal.ansi.bright_yellow"@);
    } else if index == 107 {
        assert(slice_views(TERMINAL_FIELDS@)[19] == "terminal.ansi.dim_blue"@);
    } else if index == 108 {
        assert(slice_views(TERMINAL_FIELDS@)[17] == "terminal.ansi.blue"@);
    } else if index == 109 {
        assert(slice_views(TERMINAL_FIELDS@)[18] == "terminal.ansi.bright_blue"@);
    } else if index == 110 {
        assert(slice_views(TERMINAL_FIELDS@)[22] == "terminal.ansi.dim_magenta"@);
    } else if index == 111 {
        assert(slice_views(TERMINAL_FIELDS@)[20] == "terminal.ansi.magenta"@);
    } else if index == 112 {
        assert(slice_views(TERMINAL_FIELDS@)[21] == "terminal.ansi.bright_magenta"@);
    } else if index == 113 {
        assert(slice_views(TERMINAL_FIELDS@)[25] == "terminal.ansi.dim_cyan"@);
    }
}

proof fn lemma_fixed_roles_from_114(index: int)
    requires
        114 <= index < 150,
    ensures
        is_fixed_field(STYLE_ROLES@[index]@),
{
    if index == 114 {
        assert(slice_views(TERMINAL_FIELDS@)[23] == "terminal.ansi.cyan"@);
    } else if index == 115 {
        assert(slice_views(TERMINAL_FIELDS@)[24] == "terminal.ansi.bright_cyan"@);
    } else if index == 116 {
        assert(slice_views(TERMINAL_FIELDS@)[28] == "terminal.ansi.dim_white"@);
    } else if index == 117 {
        assert(slice_views(TERMINAL_FIELDS@)[26] == "terminal.ansi.white"@);
    } else if index == 118 {
        assert(slice_views(TERMINAL_FIELDS@)[27] == "terminal.ansi.bright_white"@);
    } else if index == 119 {
        assert(slice_views(LINK_VC_FIELDS@)[1] == "version_control.added"@);
    } else if index == 120 {
        assert(slice_views(LINK_VC_FIELDS@)[2] == "version_control.deleted"@);
    } else if index == 121 {
        assert(slice_views(LINK_VC_FIELDS@)[3] == "version_control.modified"@);
    } else if index == 122 {
        assert(slice_views(LINK_VC_FIELDS@)[4] == "version_control.renamed"@);
    } else if index == 123 {
        assert(slice_views(LINK_VC_FIELDS@)[5] == "version_control.conflict"@);
    } else if index == 124 {
        assert(slice_views(LINK_VC_FIELDS@)[6] == "version_control.ignored"@);
    } else if index == 125 {
        assert(slice_views(LINK_VC_FIELDS@)[7] == "version_control.word_added"@);
    } else if index == 126 {
        assert(slice_views(LINK_VC_FIELDS@)[8] == "version_control.word_deleted"@);
    } else if index == 127 {
        assert(slice_views(LINK_VC_FIELDS@)[9] == "version_control.conflict_marker.ours"@);
    } else if index == 128 {
        assert(slice_views(LINK_VC_FIELDS@)[10] == "version_control.conflict_marker.theirs"@);
    } else if index == 129 {
        assert(slice_views(VIM_FIELDS@)[6] == "vim.yank.background"@);
    } else if index == 130 {
        assert(slice_views(VIM_FIELDS@)[7] == "vim.helix_jump_label.foreground"@);
    } else if index == 131 {
        assert(slice_views(VIM_FIELDS@)[10] == "vim.normal.foreground"@);
    } else if index == 132 {
        assert(slice_views(VIM_FIELDS@)[0] == "vim.normal.background"@);
    } else if index == 133 {
        assert(slice_views(VIM_FIELDS@)[11] == "vim.insert.foreground"@);
    } else if index == 134 {
        assert(slice_views(VIM_FIELDS@)[1] == "vim.insert.background"@);
    } else if index == 135 {
        assert(slice_views(VIM_FIELDS@)[12] == "vim.replace.foreground"@);
    } else if index == 136 {
        assert(slice_views(VIM_FIELDS@)[2] == "vim.replace.background"@);
    } else if index == 137 {
        assert(slice_views(VIM_FIELDS@)[13] == "vim.visual.foreground"@);
    } else if index == 138 {
        assert(slice_views(VIM_FIELDS@)[3] == "vim.visual.background"@);
    } else if index == 139 {
        assert(slice_views(VIM_FIELDS@)[14] == "vim.visual_line.foreground"@);
    } else if index == 140 {
        assert(slice_views(VIM_FIELDS@)[4] == "vim.visual_line.background"@);
    } else if index == 141 {
        assert(slice_views(VIM_FIELDS@)[15] == "vim.visual_block.foreground"@);
    } else if index == 142 {
        assert(slice_views(VIM_FIELDS@)[5] == "vim.visual_block.background"@);
    } else if index == 143 {
        assert(slice_views(VIM_FIELDS@)[16] == "vim.helix_normal.foreground"@);
    } else if index == 144 {
        assert(slice_views(VIM_FIELDS@)[8] == "vim.helix_normal.background"@);
    } else if index == 145 {
        assert(slice_views(VIM_FIELDS@)[17] == "vim.helix_select.foreground"@);
    } else if index == 146 {
        assert(slice_views(VIM_FIELDS@)[9] == "vim.helix_select.background"@);
    } else if index == 147 {
        assert(slice_views(EDITOR_FIELDS@)[1] == "editor.background"@);
    } else if index == 148 {
        assert(slice_views(EDITOR_FIELDS@)[2] == "editor.gutter.background"@);
    } else if index == 149 {
        assert(slice_views(CHROME_FIELDS@)[6] == "tab.active_background"@);
    }
}

proof fn lemma_fixed_roles_from_150(index: int)
    requires
        150 <= index < 185,
    ensures
        is_fixed_field(STYLE_ROLES@[index]@),
{
    if index == 150 {
        assert(slice_views(CHROME_FIELDS@)[3] == "toolbar.background"@);
    } else if index == 151 {
        assert(slice_views(FOUNDATION_FIELDS@)[8] == "background"@);
    } else if index == 152 {
        assert(slice_views(CHROME_FIELDS@)[0] == "status_bar.background"@);
    } else if index == 153 {
        assert(slice_views(CHROME_FIELDS@)[1] == "title_bar.background"@);
    } else if index == 154 {
        assert(slice_views(FOUNDATION_FIELDS@)[6] == "elevated_surface.background"@);
    } else if index == 155 {
        assert(slice_views(FOUNDATION_FIELDS@)[7] == "surface.background"@);
    } else if index == 156 {
        assert(slice_views(FOUNDATION_FIELDS@)[13] == "element.disabled"@);
    } else if index == 157 {
        assert(slice_views(FOUNDATION_FIELDS@)[21] == "ghost_element.disabled"@);
    } else if index == 158 {
        assert(slice_views(CHROME_FIELDS@)[2] == "title_bar.inactive_background"@);
    } else if index == 159 {
        assert(slice_views(EDITOR_FIELDS@)[5] == "editor.highlighted_line.background"@);
    } else if index == 160 {
        assert(slice_views(FOUNDATION_FIELDS@)[22] == "text"@);
    } else if index == 161 {
        assert(slice_views(FOUNDATION_FIELDS@)[27] == "icon"@);
    } else if index == 162 {
        assert(slice_views(FOUNDATION_FIELDS@)[23] == "text.muted"@);
    } else if index == 163 {
        assert(slice_views(FOUNDATION_FIELDS@)[24] == "text.placeholder"@);
    } else if index == 164 {
        assert(slice_views(FOUNDATION_FIELDS@)[25] == "text.disabled"@);
    } else if index == 165 {
        assert(slice_views(FOUNDATION_FIELDS@)[28] == "icon.muted"@);
    } else if index == 166 {
        assert(slice_views(FOUNDATION_FIELDS@)[30] == "icon.placeholder"@);
    } else if index == 167 {
        assert(slice_views(FOUNDATION_FIELDS@)[29] == "icon.disabled"@);
    } else if index == 168 {
        assert(slice_views(FOUNDATION_FIELDS@)[26] == "text.accent"@);
    } else if index == 169 {
        assert(slice_views(FOUNDATION_FIELDS@)[31] == "icon.accent"@);
    } else if index == 170 {
        assert(slice_views(LINK_VC_FIELDS@)[0] == "link_text.hover"@);
    } else if index == 171 {
        assert(slice_views(EDITOR_FIELDS@)[0] == "editor.foreground"@);
    } else if index == 172 {
        assert(slice_views(FOUNDATION_FIELDS@)[10] == "element.hover"@);
    } else if index == 173 {
        assert(slice_views(FOUNDATION_FIELDS@)[11] == "element.active"@);
    } else if index == 174 {
        assert(slice_views(FOUNDATION_FIELDS@)[12] == "element.selected"@);
    } else if index == 175 {
        assert(slice_views(FOUNDATION_FIELDS@)[18] == "ghost_element.hover"@);
    } else if index == 176 {
        assert(slice_views(FOUNDATION_FIELDS@)[19] == "ghost_element.active"@);
    } else if index == 177 {
        assert(slice_views(FOUNDATION_FIELDS@)[20] == "ghost_element.selected"@);
    } else if index == 178 {
        assert(slice_views(FOUNDATION_FIELDS@)[4] == "border.transparent"@);
    } else if index == 179 {
        assert(slice_views(FOUNDATION_FIELDS@)[17] == "ghost_element.background"@);
    } else if index == 180 {
        assert(slice_views(CHROME_FIELDS@)[22] == "scrollbar.track.background"@);
    } else if index == 181 {
        assert(slice_views(EDITOR_FIELDS@)[4] == "editor.active_line.background"@);
    } else if index == 182 {
        assert(slice_views(EDITOR_FIELDS@)[11] == "editor.wrap_guide"@);
    } else if index == 183 {
        assert(slice_views(EDITOR_FIELDS@)[12] == "editor.active_wrap_guide"@);
    } else if index == 184 {
        assert(slice_views(EDITOR_FIELDS@)[15] == "editor.document_highlight.read_background"@);
    }
}

pub(crate) proof fn lemma_status_names()
    ensures
        "conflict"@ + ".background"@ == "conflict.background"@,
        "conflict"@ + ".border"@ == "conflict.border"@,
        "created"@ + ".background"@ == "created.background"@,
        "created"@ + ".border"@ == "created.border"@,
        "deleted"@ + ".background"@ == "deleted.background"@,
        "deleted"@ + ".border"@ == "deleted.border"@,
        "error"@ + ".background"@ == "error.background"@,
        "error"@ + ".border"@ == "error.border"@,
        "hidden"@ + ".background"@ == "hidden.background"@,
        "hidden"@ + ".border"@ == "hidden.border"@,
        "hint"@ + ".background"@ == "hint.background"@,
        "hint"@ + ".border"@ == "hint.border"@,
        "ignored"@ + ".background"@ == "ignored.background"@,
        "ignored"@ + ".border"@ == "ignored.border"@,
        "info"@ + ".background"@ == "info.background"@,
        "info"@ + ".border"@ == "info.border"@,
        "modified"@ + ".background"@ == "modified.background"@,
        "modified"@ + ".border"@ == "modified.border"@,
        "predictive"@ + ".background"@ == "predictive.background"@,
        "predictive"@ + ".border"@ == "predictive.border"@,
        "renamed"@ + ".background"@ == "renamed.background"@,
        "renamed"@ + ".border"@ == "renamed.border"@,
        "success"@ + ".background"@ == "success.background"@,
        "success"@ + ".border"@ == "success.border"@,
        "unreachable"@ + ".background"@ == "unreachable.background"@,
        "unreachable"@ + ".border"@ == "unreachable.border"@,
        "warning"@ + ".background"@ == "warning.background"@,
        "warning"@ + ".border"@ == "warning.border"@,
{
    reveal_strlit(".background");
    reveal_strlit(".border");
    reveal_strlit("conflict");
    reveal_strlit("conflict.background");
    assert("conflict"@ + ".background"@ =~= "conflict.background"@);
    reveal_strlit("conflict.border");
    assert("conflict"@ + ".border"@ =~= "conflict.border"@);
    reveal_strlit("created");
    reveal_strlit("created.background");
    assert("created"@ + ".background"@ =~= "created.background"@);
    reveal_strlit("created.border");
    assert("created"@ + ".border"@ =~= "created.border"@);
    reveal_strlit("deleted");
    reveal_strlit("deleted.background");
    assert("deleted"@ + ".background"@ =~= "deleted.background"@);
    reveal_strlit("deleted.border");
    assert("deleted"@ + ".border"@ =~= "deleted.border"@);
    reveal_strlit("error");
    reveal_strlit("error.background");
    assert("error"@ + ".background"@ =~= "error.background"@);
    reveal_strlit("error.border");
    assert("error"@ + ".border"@ =~= "error.border"@);
    reveal_strlit("hidden");
    reveal_strlit("hidden.background");
    assert("hidden"@ + ".background"@ =~= "hidden.background"@);
    reveal_strlit("hidden.border");
    assert("hidden"@ + ".border"@ =~= "hidden.border"@);
    reveal_strlit("hint");
    reveal_strlit("hint.background");
    assert("hint"@ + ".background"@ =~= "hint.background"@);
    reveal_strlit("hint.border");
    assert("hint"@ + ".border"@ =~= "hint.border"@);
    reveal_strlit("ignored");
    reveal_strlit("ignored.background");
    assert("ignored"@ + ".background"@ =~= "ignored.background"@);
    reveal_strlit("ignored.border");
    assert("ignored"@ + ".border"@ =~= "ignored.border"@);
    reveal_strlit("info");
    reveal_strlit("info.background");
    assert("info"@ + ".background"@ =~= "info.background"@);
    reveal_strlit("info.border");
    assert("info"@ + ".border"@ =~= "info.border"@);
    reveal_strlit("modified");
    reveal_strlit("modified.background");
    assert("modified"@ + ".background"@ =~= "modified.background"@);
    reveal_strlit("modified.border");
    assert("modified"@ + ".border"@ =~= "modified.border"@);
    reveal_strlit("predictive");
    reveal_strlit("predictive.background");
    assert("predictive"@ + ".background"@ =~= "predictive.background"@);
    reveal_strlit("predictive.border");
    assert("predictive"@ + ".border"@ =~= "predictive.border"@);
    reveal_strlit("renamed");
    reveal_strlit("renamed.background");
    assert("renamed"@ + ".background"@ =~= "renamed.background"@);
    reveal_strlit("renamed.border");
    assert("renamed"@ + ".border"@ =~= "renamed.border"@);
    reveal_strlit("success");
    reveal_strlit("success.background");
    assert("success"@ + ".background"@ =~= "success.background"@);
    reveal_strlit("success.border");
    assert("success"@ + ".border"@ =~= "success.border"@);
    reveal_strlit("unreachable");
    reveal_strlit("unreachable.background");
    assert("unreachable"@ + ".background"@ =~= "unreachable.background"@);
    reveal_strlit("unreachable.border");
    assert("unreachable"@ + ".border"@ =~= "unreachable.border"@);
    reveal_strlit("warning");
    reveal_strlit("warning.background");
    assert("warning"@ + ".background"@ =~= "warning.background"@);
    reveal_strlit("warning.border");
    assert("warning"@ + ".border"@ =~= "warning.border"@);
}

proof fn lemma_status_roles(index: int)
    requires
        0 <= index < 42,
    ensures
        is_status_field(STYLE_ROLES@[index]@),
{
    lemma_status_names();
    if index < 3 {
        assert(is_field_of_status(1, STYLE_ROLES@[index]@));
    } else if index < 6 {
        assert(is_field_of_status(11, STYLE_ROLES@[index]@));
    } else if index < 9 {
        assert(is_field_of_status(2, STYLE_ROLES@[index]@));
    } else if index < 12 {
        assert(is_field_of_status(3, STYLE_ROLES@[index]@));
    } else if index < 15 {
        assert(is_field_of_status(0, STYLE_ROLES@[index]@));
    } else if index < 18 {
        assert(is_field_of_status(8, STYLE_ROLES@[index]@));
    } else if index < 21 {
        assert(is_field_of_status(13, STYLE_ROLES@[index]@));
    } else if index < 24 {
        assert(is_field_of_status(7, STYLE_ROLES@[index]@));
    } else if index < 27 {
        assert(is_field_of_status(10, STYLE_ROLES@[index]@));
    } else if index < 30 {
        assert(is_field_of_status(9, STYLE_ROLES@[index]@));
    } else if index < 33 {
        assert(is_field_of_status(5, STYLE_ROLES@[index]@));
    } else if index < 36 {
        assert(is_field_of_status(4, STYLE_ROLES@[index]@));
    } else if index < 39 {
        assert(is_field_of_status(6, STYLE_ROLES@[index]@));
    } else if index < 42 {
        assert(is_field_of_status(12, STYLE_ROLES@[index]@));
    }
}

proof fn lemma_foundation_fields_are_roles(index: int)
    requires
        0 <= index < 33,
    ensures
        slice_views(STYLE_ROLES@).contains(FOUNDATION_FIELDS@[index]@),
{
    if index == 0 {
        assert(slice_views(STYLE_ROLES@)[42] == "border"@);
    } else if index == 1 {
        assert(slice_views(STYLE_ROLES@)[43] == "border.variant"@);
    } else if index == 2 {
        assert(slice_views(STYLE_ROLES@)[44] == "border.focused"@);
    } else if index == 3 {
        assert(slice_views(STYLE_ROLES@)[45] == "border.selected"@);
    } else if index == 4 {
        assert(slice_views(STYLE_ROLES@)[178] == "border.transparent"@);
    } else if index == 5 {
        assert(slice_views(STYLE_ROLES@)[46] == "border.disabled"@);
    } else if index == 6 {
        assert(slice_views(STYLE_ROLES@)[154] == "elevated_surface.background"@);
    } else if index == 7 {
        assert(slice_views(STYLE_ROLES@)[155] == "surface.background"@);
    } else if index == 8 {
        assert(slice_views(STYLE_ROLES@)[151] == "background"@);
    } else if index == 9 {
        assert(slice_views(STYLE_ROLES@)[47] == "element.background"@);
    } else if index == 10 {
        assert(slice_views(STYLE_ROLES@)[172] == "element.hover"@);
    } else if index == 11 {
        assert(slice_views(STYLE_ROLES@)[173] == "element.active"@);
    } else if index == 12 {
        assert(slice_views(STYLE_ROLES@)[174] == "element.selected"@);
    } else if index == 13 {
        assert(slice_views(STYLE_ROLES@)[156] == "element.disabled"@);
    } else if index == 14 {
        assert(slice_views(STYLE_ROLES@)[48] == "element.selection_background"@);
    } else if index == 15 {
        assert(slice_views(STYLE_ROLES@)[49] == "drop_target.background"@);
    } else if index == 16 {
        assert(slice_views(STYLE_ROLES@)[50] == "drop_target.border"@);
    } else if index == 17 {
        assert(slice_views(STYLE_ROLES@)[179] == "ghost_element.background"@);
    } else if index == 18 {
        assert(slice_views(STYLE_ROLES@)[175] == "ghost_element.hover"@);
    } else if index == 19 {
        assert(slice_views(STYLE_ROLES@)[176] == "ghost_element.active"@);
    } else if index == 20 {
        assert(slice_views(STYLE_ROLES@)[177] == "ghost_element.selected"@);
    } else if index == 21 {
        assert(slice_views(STYLE_ROLES@)[157] == "ghost_element.disabled"@);
    } else if index == 22 {
        assert(slice_views(STYLE_ROLES@)[160] == "text"@);
    } else if index == 23 {
        assert(slice_views(STYLE_ROLES@)[162] == "text.muted"@);
    } else if index == 24 {
        assert(slice_views(STYLE_ROLES@)[163] == "text.placeholder"@);
    } else if index == 25 {
        assert(slice_views(STYLE_ROLES@)[164] == "text.disabled"@);
    } else if index == 26 {
        assert(slice_views(STYLE_ROLES@)[168] == "text.accent"@);
    } else if index == 27 {
        assert(slice_views(STYLE_ROLES@)[161] == "icon"@);
    } else if index == 28 {
        assert(slice_views(STYLE_ROLES@)[165] == "icon.muted"@);
    } else if index == 29 {
        assert(slice_views(STYLE_ROLES@)[167] == "icon.disabled"@);
    } else if index == 30 {
        assert(slice_views(STYLE_ROLES@)[166] == "icon.placeholder"@);
    } else if index == 31 {
        assert(slice_views(STYLE_ROLES@)[169] == "icon.accent"@);
    } else if index == 32 {
        assert(slice_views(STYLE_ROLES@)[51] == "debugger.accent"@);
    }
}

proof fn lemma_chrome_fields_are_roles(index: int)
    requires
        0 <= index < 28,
    ensures
        slice_views(STYLE_ROLES@).contains(CHROME_FIELDS@[index]@),
{
    if index == 0 {
        assert(slice_views(STYLE_ROLES@)[152] == "status_bar.background"@);
    } else if index == 1 {
        assert(slice_views(STYLE_ROLES@)[153] == "title_bar.background"@);
    } else if index == 2 {
        assert(slice_views(STYLE_ROLES@)[158] == "title_bar.inactive_background"@);
    } else if index == 3 {
        assert(slice_views(STYLE_ROLES@)[150] == "toolbar.background"@);
    } else if index == 4 {
        assert(slice_views(STYLE_ROLES@)[52] == "tab_bar.background"@);
    } else if index == 5 {
        assert(slice_views(STYLE_ROLES@)[53] == "tab.inactive_background"@);
    } else if index == 6 {
        assert(slice_views(STYLE_ROLES@)[149] == "tab.active_background"@);
    } else if index == 7 {
        assert(slice_views(STYLE_ROLES@)[54] == "search.match_background"@);
    } else if index == 8 {
        assert(slice_views(STYLE_ROLES@)[55] == "search.active_match_background"@);
    } else if index == 9 {
        assert(slice_views(STYLE_ROLES@)[56] == "panel.background"@);
    } else if index == 10 {
        assert(slice_views(STYLE_ROLES@)[57] == "panel.focused_border"@);
    } else if index == 11 {
        assert(slice_views(STYLE_ROLES@)[58] == "panel.indent_guide"@);
    } else if index == 12 {
        assert(slice_views(STYLE_ROLES@)[59] == "panel.indent_guide_hover"@);
    } else if index == 13 {
        assert(slice_views(STYLE_ROLES@)[60] == "panel.indent_guide_active"@);
    } else if index == 14 {
        assert(slice_views(STYLE_ROLES@)[61] == "panel.overlay_background"@);
    } else if index == 15 {
        assert(slice_views(STYLE_ROLES@)[62] == "panel.overlay_hover"@);
    } else if index == 16 {
        assert(slice_views(STYLE_ROLES@)[63] == "pane.focused_border"@);
    } else if index == 17 {
        assert(slice_views(STYLE_ROLES@)[64] == "pane_group.border"@);
    } else if index == 18 {
        assert(slice_views(STYLE_ROLES@)[65] == "scrollbar.thumb.background"@);
    } else if index == 19 {
        assert(slice_views(STYLE_ROLES@)[66] == "scrollbar.thumb.hover_background"@);
    } else if index == 20 {
        assert(slice_views(STYLE_ROLES@)[67] == "scrollbar.thumb.active_background"@);
    } else if index == 21 {
        assert(slice_views(STYLE_ROLES@)[68] == "scrollbar.thumb.border"@);
    } else if index == 22 {
        assert(slice_views(STYLE_ROLES@)[180] == "scrollbar.track.background"@);
    } else if index == 23 {
        assert(slice_views(STYLE_ROLES@)[69] == "scrollbar.track.border"@);
    } else if index == 24 {
        assert(slice_views(STYLE_ROLES@)[70] == "minimap.thumb.background"@);
    } else if index == 25 {
        assert(slice_views(STYLE_ROLES@)[71] == "minimap.thumb.hover_background"@);
    } else if index == 26 {
        assert(slice_views(STYLE_ROLES@)[72] == "minimap.thumb.active_background"@);
    } else if index == 27 {
        assert(slice_views(STYLE_ROLES@)[73] == "minimap.thumb.border"@);
    }
}

proof fn lemma_editor_fields_are_roles(index: int)
    requires
        0 <= index < 24,
    ensures
        slice_views(STYLE_ROLES@).contains(EDITOR_FIELDS@[index]@),
{
    if index == 0 {
        assert(slice_views(STYLE_ROLES@)[171] == "editor.foreground"@);
    } else if index == 1 {
        assert(slice_views(STYLE_ROLES@)[147] == "editor.background"@);
    } else if index == 2 {
        assert(slice_views(STYLE_ROLES@)[148] == "editor.gutter.background"@);
    } else if index == 3 {
        assert(slice_views(STYLE_ROLES@)[74] == "editor.subheader.background"@);
    } else if index == 4 {
        assert(slice_views(STYLE_ROLES@)[181] == "editor.active_line.background"@);
    } else if index == 5 {
        assert(slice_views(STYLE_ROLES@)[159] == "editor.highlighted_line.background"@);
    } else if index == 6 {
        assert(slice_views(STYLE_ROLES@)[75] == "editor.debugger_active_line.background"@);
    } else if index == 7 {
        assert(slice_views(STYLE_ROLES@)[76] == "editor.line_number"@);
    } else if index == 8 {
        assert(slice_views(STYLE_ROLES@)[77] == "editor.active_line_number"@);
    } else if index == 9 {
        assert(slice_views(STYLE_ROLES@)[78] == "editor.hover_line_number"@);
    } else if index == 10 {
        assert(slice_views(STYLE_ROLES@)[79] == "editor.invisible"@);
    } else if index == 11 {
        assert(slice_views(STYLE_ROLES@)[182] == "editor.wrap_guide"@);
    } else if index == 12 {
        assert(slice_views(STYLE_ROLES@)[183] == "editor.active_wrap_guide"@);
    } else if index == 13 {
        assert(slice_views(STYLE_ROLES@)[80] == "editor.indent_guide"@);
    } else if index == 14 {
        assert(slice_views(STYLE_ROLES@)[81] == "editor.indent_guide_active"@);
    } else if index == 15 {
        assert(slice_views(STYLE_ROLES@)[184] == "editor.document_highlight.read_background"@);
    } else if index == 16 {
        assert(slice_views(STYLE_ROLES@)[82] == "editor.document_highlight.write_background"@);
    } else if index == 17 {
        assert(slice_views(STYLE_ROLES@)[83] == "editor.document_highlight.bracket_background"@);
    } else if index == 18 {
        assert(slice_views(STYLE_ROLES@)[84] == "editor.diff_hunk.added.background"@);
    } else if index == 19 {
        assert(slice_views(STYLE_ROLES@)[85] == "editor.diff_hunk.added.hollow_background"@);
    } else if index == 20 {
        assert(slice_views(STYLE_ROLES@)[86] == "editor.diff_hunk.added.hollow_border"@);
    } else if index == 21 {
        assert(slice_views(STYLE_ROLES@)[87] == "editor.diff_hunk.deleted.background"@);
    } else if index == 22 {
        assert(slice_views(STYLE_ROLES@)[88] == "editor.diff_hunk.deleted.hollow_background"@);
    } else if index == 23 {
        assert(slice_views(STYLE_ROLES@)[89] == "editor.diff_hunk.deleted.hollow_border"@);
    }
}

proof fn lemma_terminal_fields_are_roles(index: int)
    requires
        0 <= index < 29,
    ensures
        slice_views(STYLE_ROLES@).contains(TERMINAL_FIELDS@[index]@),
{
    if index == 0 {
        assert(slice_views(STYLE_ROLES@)[90] == "terminal.background"@);
    } else if index == 1 {
        assert(slice_views(STYLE_ROLES@)[93] == "terminal.foreground"@);
    } else if index == 2 {
        assert(slice_views(STYLE_ROLES@)[91] == "terminal.ansi.background"@);
    } else if index == 3 {
        assert(slice_views(STYLE_ROLES@)[94] == "terminal.bright_foreground"@);
    } else if index == 4 {
        assert(slice_views(STYLE_ROLES@)[92] == "terminal.dim_foreground"@);
    } else if index == 5 {
        assert(slice_views(STYLE_ROLES@)[96] == "terminal.ansi.black"@);
    } else if index == 6 {
        assert(slice_views(STYLE_ROLES@)[97] == "terminal.ansi.bright_black"@);
    } else if index == 7 {
        assert(slice_views(STYLE_ROLES@)[95] == "terminal.ansi.dim_black"@);
    } else if index == 8 {
        assert(slice_views(STYLE_ROLES@)[99] == "terminal.ansi.red"@);
    } else if index == 9 {
        assert(slice_views(STYLE_ROLES@)[100] == "terminal.ansi.bright_red"@);
    } else if index == 10 {
        assert(slice_views(STYLE_ROLES@)[98] == "terminal.ansi.dim_red"@);
    } else if index == 11 {
        assert(slice_views(STYLE_ROLES@)[102] == "terminal.ansi.green"@);
    } else if index == 12 {
        assert(slice_views(STYLE_ROLES@)[103] == "terminal.ansi.bright_green"@);
    } else if index == 13 {
        assert(slice_views(STYLE_ROLES@)[101] == "terminal.ansi.dim_green"@);
    } else if index == 14 {
        assert(slice_views(STYLE_ROLES@)[105] == "terminal.ansi.yellow"@);
    } else if index == 15 {
        assert(slice_views(STYLE_ROLES@)[106] == "terminal.ansi.bright_yellow"@);
    } else if index == 16 {
        assert(slice_views(STYLE_ROLES@)[104] == "terminal.ansi.dim_yellow"@);
    } else if index == 17 {
        assert(slice_views(STYLE_ROLES@)[108] == "terminal.ansi.blue"@);
    } else if index == 18 {
        assert(slice_views(STYLE_ROLES@)[109] == "terminal.ansi.bright_blue"@);
    } else if index == 19 {
        assert(slice_views(STYLE_ROLES@)[107] == "terminal.ansi.dim_blue"@);
    } else if index == 20 {
        assert(slice_views(STYLE_ROLES@)[111] == "terminal.ansi.magenta"@);
    } else if index == 21 {
        assert(slice_views(STYLE_ROLES@)[112] == "terminal.ansi.bright_magenta"@);
    } else if index == 22 {
        assert(slice_views(STYLE_ROLES@)[110] == "terminal.ansi.dim_magenta"@);
    } else if index == 23 {
        assert(slice_views(STYLE_ROLES@)[114] == "terminal.ansi.cyan"@);
    } else if index == 24 {
        assert(slice_views(STYLE_ROLES@)[115] == "terminal.ansi.bright_cyan"@);
    } else if index == 25 {
        assert(slice_views(STYLE_ROLES@)[113] == "terminal.ansi.dim_cyan"@);
    } else if index == 26 {
        assert(slice_views(STYLE_ROLES@)[117] == "terminal.ansi.white"@);
    } else if index == 27 {
        assert(slice_views(STYLE_ROLES@)[118] == "terminal.ansi.bright_white"@);
    } else if index == 28 {
        assert(slice_views(STYLE_ROLES@)[116] == "terminal.ansi.dim_white"@);
    }
}

proof fn lemma_link_vc_fields_are_roles(index: int)
    requires
        0 <= index < 11,
    ensures
        slice_views(STYLE_ROLES@).contains(LINK_VC_FIELDS@[index]@),
{
    if index == 0 {
        assert(slice_views(STYLE_ROLES@)[170] == "link_text.hover"@);
    } else if index == 1 {
        assert(slice_views(STYLE_ROLES@)[119] == "version_control.added"@);
    } else if index == 2 {
        assert(slice_views(STYLE_ROLES@)[120] == "version_control.deleted"@);
    } else if index == 3 {
        assert(slice_views(STYLE_ROLES@)[121] == "version_control.modified"@);
    } else if index == 4 {
        assert(slice_views(STYLE_ROLES@)[122] == "version_control.renamed"@);
    } else if index == 5 {
        assert(slice_views(STYLE_ROLES@)[123] == "version_control.conflict"@);
    } else if index == 6 {
        assert(slice_views(STYLE_ROLES@)[124] == "version_control.ignored"@);
    } else if index == 7 {
        assert(slice_views(STYLE_ROLES@)[125] == "version_control.word_added"@);
    } else if index == 8 {
        assert(slice_views(STYLE_ROLES@)[126] == "version_control.word_deleted"@);
    } else if index == 9 {
        assert(slice_views(STYLE_ROLES@)[127] == "version_control.conflict_marker.ours"@);
    } else if index == 10 {
        assert(slice_views(STYLE_ROLES@)[128] == "version_control.conflict_marker.theirs"@);
    }
}

proof fn lemma_vim_fields_are_roles(index: int)
    requires
        0 <= index < 18,
    ensures
        slice_views(STYLE_ROLES@).contains(VIM_FIELDS@[index]@),
{
    if index == 0 {
        assert(slice_views(STYLE_ROLES@)[132] == "vim.normal.background"@);
    } else if index == 1 {
        assert(slice_views(STYLE_ROLES@)[134] == "vim.insert.background"@);
    } else if index == 2 {
        assert(slice_views(STYLE_ROLES@)[136] == "vim.replace.background"@);
    } else if index == 3 {
        assert(slice_views(STYLE_ROLES@)[138] == "vim.visual.background"@);
    } else if index == 4 {
        assert(slice_views(STYLE_ROLES@)[140] == "vim.visual_line.background"@);
    } else if index == 5 {
        assert(slice_views(STYLE_ROLES@)[142] == "vim.visual_block.background"@);
    } else if index == 6 {
        assert(slice_views(STYLE_ROLES@)[129] == "vim.yank.background"@);
    } else if index == 7 {
        assert(slice_views(STYLE_ROLES@)[130] == "vim.helix_jump_label.foreground"@);
    } else if index == 8 {
        assert(slice_views(STYLE_ROLES@)[144] == "vim.helix_normal.background"@);
    } else if index == 9 {
        assert(slice_views(STYLE_ROLES@)[146] == "vim.helix_select.background"@);
    } else if index == 10 {
        assert(slice_views(STYLE_ROLES@)[131] == "vim.normal.foreground"@);
    } else if index == 11 {
        assert(slice_views(STYLE_ROLES@)[133] == "vim.insert.foreground"@);
    } else if index == 12 {
        assert(slice_views(STYLE_ROLES@)[135] == "vim.replace.foreground"@);
    } else if index == 13 {
        assert(slice_views(STYLE_ROLES@)[137] == "vim.visual.foreground"@);
    } else if index == 14 {
        assert(slice_views(STYLE_ROLES@)[139] == "vim.visual_line.foreground"@);
    } else if index == 15 {
        assert(slice_views(STYLE_ROLES@)[141] == "vim.visual_block.foreground"@);
    } else if index == 16 {
        assert(slice_views(STYLE_ROLES@)[143] == "vim.helix_normal.foreground"@);
    } else if index == 17 {
        assert(slice_views(STYLE_ROLES@)[145] == "vim.helix_select.foreground"@);
    }
}

proof fn lemma_status_fields_are_roles(index: int, name: Seq<char>)
    requires
        is_field_of_status(index, name),
    ensures
        slice_views(STYLE_ROLES@).contains(name),
{
    lemma_status_names();
    let roles = slice_views(STYLE_ROLES@);
    if index == 0 {
        assert(roles[12] == "conflict"@ && roles[13] == "conflict.background"@ && roles[14] == "conflict.border"@);
    } else if index == 1 {
        assert(roles[0] == "created"@ && roles[1] == "created.background"@ && roles[2] == "created.border"@);
    } else if index == 2 {
        assert(roles[6] == "deleted"@ && roles[7] == "deleted.background"@ && roles[8] == "deleted.border"@);
    } else if index == 3 {
        assert(roles[9] == "error"@ && roles[10] == "error.background"@ && roles[11] == "error.border"@);
    } else if index == 4 {
        assert(roles[33] == "hidden"@ && roles[34] == "hidden.background"@ && roles[35] == "hidden.border"@);
    } else if index == 5 {
        assert(roles[30] == "hint"@ && roles[31] == "hint.background"@ && roles[32] == "hint.border"@);
    } else if index == 6 {
        assert(roles[36] == "ignored"@ && roles[37] == "ignored.background"@ && roles[38] == "ignored.border"@);
    } else if index == 7 {
        assert(roles[21] == "info"@ && roles[22] == "info.background"@ && roles[23] == "info.border"@);
    } else if index == 8 {
        assert(roles[15] == "modified"@ && roles[16] == "modified.background"@ && roles[17] == "modified.border"@);
    } else if index == 9 {
        assert(roles[27] == "predictive"@ && roles[28] == "predictive.background"@ && roles[29] == "predictive.border"@);
    } else if index == 10 {
        assert(roles[24] == "renamed"@ && roles[25] == "renamed.background"@ && roles[26] == "renamed.border"@);
    } else if index == 11 {
        assert(roles[3] == "success"@ && roles[4] == "success.background"@ && roles[5] == "success.border"@);
    } else if index == 12 {
        assert(roles[39] == "unreachable"@ && roles[40] == "unreachable.background"@ && roles[41] == "unreachable.border"@);
    } else if index == 13 {
        assert(roles[18] == "warning"@ && roles[19] == "warning.background"@ && roles[20] == "warning.border"@);
    }
}

/// A style is filled with exactly the color fields of the schema.
pub proof fn lemma_roles_are_the_manifest(name: Seq<char>)
    ensures
        slice_views(STYLE_ROLES@).contains(name) <==> is_fixed_field(name) || is_status_field(name),
{
    if slice_views(STYLE_ROLES@).contains(name) {
        let index = choose|i: int|
            0 <= i < STYLE_ROLES@.len() && slice_views(STYLE_ROLES@)[i] == name;
        if index < 42 {
            lemma_status_roles(index);
        } else if index < 78 {
            lemma_fixed_roles_from_42(index);
        } else if index < 114 {
            lemma_fixed_roles_from_78(index);
        } else if index < 150 {
            lemma_fixed_roles_from_114(index);
        } else if index < 185 {
            lemma_fixed_roles_from_150(index);
        }
    }
    if is_status_field(name) {
        let index = choose|i: int| is_field_of_status(i, name);
        lemma_status_fields_are_roles(index, name);
    }
    if slice_views(FOUNDATION_FIELDS@).contains(name) {
        let index = choose|i: int|
            0 <= i < FOUNDATION_FIELDS@.len() && slice_views(FOUNDATION_FIELDS@)[i] == name;
        lemma_foundation_fields_are_roles(index);
    }
    if slice_views(CHROME_FIELDS@).contains(name) {
        let index = choose|i: int|
            0 <= i < CHROME_FIELDS@.len() && slice_views(CHROME_FIELDS@)[i] == name;
        lemma_chrome_fields_are_roles(index);
    }
    if slice_views(EDITOR_FIELDS@).contains(name) {
        let index = choose|i: int|
            0 <= i < EDITOR_FIELDS@.len() && slice_views(EDITOR_FIELDS@)[i] == name;
        lemma_editor_fields_are_roles(index);
    }
    if slice_views(TERMINAL_FIELDS@).contains(name) {
        let index = choose|i: int|
            0 <= i < TERMINAL_FIELDS@.len() && slice_views(TERMINAL_FIELDS@)[i] == name;
        lemma_terminal_fields_are_roles(index);
    }
    if slice_views(LINK_VC_FIELDS@).contains(name) {
        let index = choose|i: int|
            0 <= i < LINK_VC_FIELDS@.len() && slice_views(LINK_VC_FIELDS@)[i] == name;
        lemma_link_vc_fields_are_roles(index);
    }
    if slice_views(VIM_FIELDS@).contains(name) {
        let index = choose|i: int|
            0 <= i < VIM_FIELDS@.len() && slice_views(VIM_FIELDS@)[i] == name;
        lemma_vim_fields_are_roles(index);
    }
}

} // verus!
