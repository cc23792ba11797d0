//! The names of the roles of a style.

use vstd::prelude::*;

verus! {

/// Every role of a style that holds a color: the roles of the statuses, the roles
/// with colors of their own and the roles that take their color from a token.
pub const STYLE_ROLES: [&'static str; 185] = [
    "created",
    "created.background",
    "created.border",
    "success",
    "success.background",
    "success.border",
    "deleted",
    "deleted.background",
    "deleted.border",
    "error",
    "error.background",
    "error.border",
    "conflict",
    "conflict.background",
    "conflict.border",
    "modified",
    "modified.background",
    "modified.border",
    "warning",
    "warning.background",
    "warning.border",
    "info",
    "info.background",
    "info.border",
    "renamed",
    "renamed.background",
    "renamed.border",
    "predictive",
    "predictive.background",
    "predictive.border",
    "hint",
    "hint.background",
    "hint.border",
    "hidden",
    "hidden.background",
    "hidden.border",
    "ignored",
    "ignored.background",
    "ignored.border",
    "unreachable",
    "unreachable.background",
    "unreachable.border",
    "border",
    "border.variant",
    "border.focused",
    "border.selected",
    "border.disabled",
    "element.background",
    "element.selection_background",
    "drop_target.background",
    "drop_target.border",
    "debugger.accent",
    "tab_bar.background",
    "tab.inactive_background",
    "search.match_background",
    "search.active_match_background",
    "panel.background",
    "panel.focused_border",
    "panel.indent_guide",
    "panel.indent_guide_hover",
    "panel.indent_guide_active",
    "panel.overlay_background",
    "panel.overlay_hover",
    "pane.focused_border",
    "pane_group.border",
    "scrollbar.thumb.background",
    "scrollbar.thumb.hover_background",
    "scrollbar.thumb.active_background",
    "scrollbar.thumb.border",
    "scrollbar.track.border",
    "minimap.thumb.background",
    "minimap.thumb.hover_background",
    "minimap.thumb.active_background",
    "minimap.thumb.border",
    "editor.subheader.background",
    "editor.debugger_active_line.background",
    "editor.line_number",
    "editor.active_line_number",
    "editor.hover_line_number",
    "editor.invisible",
    "editor.indent_guide",
    "editor.indent_guide_active",
    "editor.document_highlight.write_background",
    "editor.document_highlight.bracket_background",
    "editor.diff_hunk.added.background",
    "editor.diff_hunk.added.hollow_background",
    "editor.diff_hunk.added.hollow_border",
    "editor.diff_hunk.deleted.background",
    "editor.diff_hunk.deleted.hollow_background",
    "editor.diff_hunk.deleted.hollow_border",
    "terminal.background",
    "terminal.ansi.background",
    "terminal.dim_foreground",
    "terminal.foreground",
    "terminal.bright_foreground",
    "terminal.ansi.dim_black",
    "terminal.ansi.black",
    "terminal.ansi.bright_black",
    "terminal.ansi.dim_red",
    "terminal.ansi.red",
    "terminal.ansi.bright_red",
    "terminal.ansi.dim_green",
    "terminal.ansi.green",
    "terminal.ansi.bright_green",
    "terminal.ansi.dim_yellow",
    "terminal.ansi.yellow",
    "terminal.ansi.bright_yellow",
    "terminal.ansi.dim_blue",
    "terminal.ansi.blue",
    "terminal.ansi.bright_blue",
    "terminal.ansi.dim_magenta",
    "terminal.ansi.magenta",
    "terminal.ansi.bright_magenta",
    "terminal.ansi.dim_cyan",
    "terminal.ansi.cyan",
    "terminal.ansi.bright_cyan",
    "terminal.ansi.dim_white",
    "terminal.ansi.white",
    "terminal.ansi.bright_white",
    "version_control.added",
    "version_control.deleted",
    "version_control.modified",
    "version_control.renamed",
    "version_control.conflict",
    "version_control.ignored",
    "version_control.word_added",
    "version_control.word_deleted",
    "version_control.conflict_marker.ours",
    "version_control.conflict_marker.theirs",
    "vim.yank.background",
    "vim.helix_jump_label.foreground",
    "vim.normal.foreground",
    "vim.normal.background",
    "vim.insert.foreground",
    "vim.insert.background",
    "vim.replace.foreground",
    "vim.replace.background",
    "vim.visual.foreground",
    "vim.visual.background",
    "vim.visual_line.foreground",
    "vim.visual_line.background",
    "vim.visual_block.foreground",
    "vim.visual_block.background",
    "vim.helix_normal.foreground",
    "vim.helix_normal.background",
    "vim.helix_select.foreground",
    "vim.helix_select.background",
    "editor.background",
    "editor.gutter.background",
    "tab.active_background",
    "toolbar.background",
    "background",
    "status_bar.background",
    "title_bar.background",
    "elevated_surface.background",
    "surface.background",
    "element.disabled",
    "ghost_element.disabled",
    "title_bar.inactive_background",
    "editor.highlighted_line.background",
    "text",
    "icon",
    "text.muted",
    "text.placeholder",
    "text.disabled",
    "icon.muted",
    "icon.placeholder",
    "icon.disabled",
    "text.accent",
    "icon.accent",
    "link_text.hover",
    "editor.foreground",
    "element.hover",
    "element.active",
    "element.selected",
    "ghost_element.hover",
    "ghost_element.active",
    "ghost_element.selected",
    "border.transparent",
    "ghost_element.background",
    "scrollbar.track.background",
    "editor.active_line.background",
    "editor.wrap_guide",
    "editor.active_wrap_guide",
    "editor.document_highlight.read_background",
];

/// The number of a role, read off the length of its name and a few characters.
/// Names with different numbers are different.
#[verifier::opaque]
pub open spec fn role_number(name: Seq<char>) -> int {
    if name.len() == 4 {
        if name[1] == 'c' {
            161
        } else if name[1] == 'e' {
            160
        } else if name[1] == 'i' {
            30
        } else {
            21
        }
    } else if name.len() == 5 {
        9
    } else if name.len() == 6 {
        if name[0] == 'b' {
            42
        } else if name[0] == 'h' {
            33
        } else {
            188
        }
    } else if name.len() == 7 {
        if name[0] == 'a' {
            186
        } else if name[0] == 'c' {
            0
        } else if name[0] == 'd' {
            6
        } else if name[0] == 'i' {
            36
        } else if name[0] == 'p' {
            187
        } else if name[0] == 'r' {
            24
        } else if name[0] == 's' {
            3
        } else {
            18
        }
    } else if name.len() == 8 {
        if name[0] == 'c' {
            12
        } else {
            15
        }
    } else if name.len() == 10 {
        if name[0] == 'b' {
            151
        } else if name[0] == 'i' {
            165
        } else if name[0] == 'p' {
            27
        } else {
            162
        }
    } else if name.len() == 11 {
        if name[2] == 'f' {
            23
        } else if name[2] == 'n' {
            32
        } else if name[2] == 'o' {
            169
        } else if name[2] == 'r' {
            39
        } else {
            168
        }
    } else if name.len() == 12 {
        11
    } else if name.len() == 13 {
        if name[0] == 'e' {
            172
        } else if name[0] == 'h' {
            35
        } else if name[0] == 'i' {
            167
        } else {
            164
        }
    } else if name.len() == 14 {
        if name[1] == 'a' {
            20
        } else if name[1] == 'e' {
            if name[0] == 'd' {
                8
            } else {
                26
            }
        } else if name[1] == 'g' {
            38
        } else if name[1] == 'l' {
            173
        } else if name[1] == 'o' {
            if name[7] == 'f' {
                44
            } else {
                43
            }
        } else if name[1] == 'r' {
            2
        } else {
            5
        }
    } else if name.len() == 15 {
        if name[5] == 'b' {
            if name[0] == 'h' {
                31
            } else {
                22
            }
        } else if name[5] == 'g' {
            51
        } else if name[5] == 'i' {
            if name[0] == 'c' {
                14
            } else {
                17
            }
        } else if name[5] == 'r' {
            if name[7] == 'd' {
                46
            } else {
                45
            }
        } else {
            170
        }
    } else if name.len() == 16 {
        if name[5] == '.' {
            if name[0] == 'e' {
                10
            } else {
                56
            }
        } else if name[5] == 'n' {
            if name[8] == 'd' {
                156
            } else {
                174
            }
        } else if name[5] == 'p' {
            if name[0] == 'i' {
                166
            } else {
                163
            }
        } else {
            79
        }
    } else if name.len() == 17 {
        if name[9] == 'a' {
            if name[0] == 'e' {
                182
            } else {
                99
            }
        } else if name[9] == 'c' {
            if name[0] == 'e' {
                147
            } else {
                34
            }
        } else if name[9] == 'e' {
            29
        } else if name[9] == 'p' {
            64
        } else {
            171
        }
    } else if name.len() == 18 {
        if name[4] == '_' {
            50
        } else if name[4] == 'a' {
            if name[0] == 's' {
                155
            } else {
                41
            }
        } else if name[4] == 'b' {
            if name[1] == 'a' {
                52
            } else {
                150
            }
        } else if name[4] == 'e' {
            if name[0] == 'b' {
                178
            } else if name[0] == 'e' {
                47
            } else {
                4
            }
        } else if name[4] == 'i' {
            if name[14] == 'b' {
                108
            } else if name[14] == 'c' {
                114
            } else {
                19
            }
        } else if name[4] == 'l' {
            58
        } else if name[4] == 'm' {
            25
        } else if name[4] == 'o' {
            76
        } else if name[4] == 'r' {
            37
        } else {
            if name[0] == 'c' {
                1
            } else {
                7
            }
        }
    } else if name.len() == 19 {
        if name[10] == 'a' {
            if name[0] == 'c' {
                13
            } else if name[0] == 'm' {
                16
            } else if name[0] == 't' {
                90
            } else {
                129
            }
        } else if name[10] == 'e' {
            if name[0] == 'e' {
                80
            } else if name[0] == 'g' {
                175
            } else {
                63
            }
        } else if name[10] == 'l' {
            62
        } else if name[10] == 'n' {
            if name[14] == 'b' {
                96
            } else if name[14] == 'g' {
                102
            } else {
                117
            }
        } else {
            93
        }
    } else if name.len() == 20 {
        if name[3] == 'e' {
            57
        } else if name[3] == 'i' {
            73
        } else if name[3] == 'l' {
            153
        } else if name[3] == 'm' {
            105
        } else {
            176
        }
    } else if name.len() == 21 {
        if name[7] == '_' {
            119
        } else if name[7] == 'b' {
            152
        } else if name[7] == 'e' {
            if name[11] == 'b' {
                134
            } else {
                133
            }
        } else if name[7] == 'i' {
            if name[0] == 'p' {
                28
            } else {
                149
            }
        } else if name[7] == 'l' {
            if name[14] == 'd' {
                98
            } else {
                111
            }
        } else if name[7] == 'm' {
            if name[11] == 'b' {
                132
            } else {
                131
            }
        } else {
            if name[11] == 'a' {
                185
            } else if name[11] == 'b' {
                138
            } else {
                137
            }
        }
    } else if name.len() == 22 {
        if name[0] == 'd' {
            49
        } else if name[0] == 'g' {
            if name[14] == 'd' {
                157
            } else {
                177
            }
        } else if name[0] == 's' {
            if name[11] == 'h' {
                68
            } else {
                69
            }
        } else if name[0] == 't' {
            if name[18] == 'b' {
                107
            } else {
                113
            }
        } else if name[0] == 'u' {
            40
        } else {
            if name[12] == 'b' {
                136
            } else {
                135
            }
        }
    } else if name.len() == 23 {
        if name[12] == '_' {
            if name[2] == 'a' {
                54
            } else if name[2] == 'b' {
                53
            } else {
                92
            }
        } else if name[12] == 'i' {
            if name[18] == 'b' {
                95
            } else if name[18] == 'g' {
                101
            } else {
                116
            }
        } else {
            if name[16] == 'd' {
                120
            } else if name[16] == 'i' {
                124
            } else {
                122
            }
        }
    } else if name.len() == 24 {
        if name[3] == 'e' {
            if name[6] == 'i' {
                59
            } else {
                61
            }
        } else if name[3] == 'i' {
            70
        } else if name[3] == 'm' {
            if name[15] == 'a' {
                91
            } else if name[15] == 'i' {
                104
            } else {
                100
            }
        } else if name[3] == 's' {
            if name[18] == 'd' {
                121
            } else if name[18] == 'g' {
                179
            } else {
                123
            }
        } else {
            if name[7] == 'a' {
                183
            } else if name[7] == 'g' {
                148
            } else {
                78
            }
        }
    } else if name.len() == 25 {
        if name[21] == 'b' {
            109
        } else if name[21] == 'c' {
            115
        } else if name[21] == 'e' {
            110
        } else if name[21] == 'm' {
            77
        } else {
            60
        }
    } else if name.len() == 26 {
        if name[17] == 'a' {
            if name[11] == 'h' {
                65
            } else if name[11] == 'l' {
                140
            } else {
                180
            }
        } else if name[17] == 'd' {
            81
        } else if name[17] == 'g' {
            if name[21] == 'b' {
                97
            } else if name[21] == 'g' {
                103
            } else {
                118
            }
        } else {
            if name[3] == '.' {
                139
            } else if name[3] == 'm' {
                94
            } else {
                125
            }
        }
    } else if name.len() == 27 {
        if name[15] == 'e' {
            154
        } else if name[15] == 'k' {
            if name[17] == 'b' {
                142
            } else {
                141
            }
        } else if name[15] == 'l' {
            if name[17] == 'b' {
                144
            } else {
                143
            }
        } else if name[15] == 'r' {
            if name[0] == 'e' {
                74
            } else {
                106
            }
        } else {
            if name[17] == 'b' {
                146
            } else {
                145
            }
        }
    } else if name.len() == 28 {
        if name[0] == 'e' {
            48
        } else if name[0] == 't' {
            112
        } else {
            126
        }
    } else if name.len() == 29 {
        if name[0] == 'e' {
            181
        } else {
            158
        }
    } else if name.len() == 30 {
        if name[0] == 'm' {
            71
        } else {
            55
        }
    } else if name.len() == 31 {
        if name[0] == 'm' {
            72
        } else {
            130
        }
    } else if name.len() == 32 {
        66
    } else if name.len() == 33 {
        if name[0] == 'e' {
            84
        } else {
            67
        }
    } else if name.len() == 34 {
        159
    } else if name.len() == 35 {
        87
    } else if name.len() == 36 {
        if name[0] == 'e' {
            86
        } else {
            127
        }
    } else if name.len() == 38 {
        if name[8] == 'c' {
            128
        } else if name[8] == 'e' {
            75
        } else {
            89
        }
    } else if name.len() == 40 {
        85
    } else if name.len() == 41 {
        184
    } else if name.len() == 42 {
        if name[8] == 'i' {
            88
        } else {
            82
        }
    } else {
        83
    }
}

proof fn lemma_role_numbers_from_0(index: int)
    requires
        0 <= index < 37,
    ensures
        role_number(STYLE_ROLES@[index]@) == index,
{
    reveal(role_number);
    if index == 0 {
        reveal_strlit("created");
    } else if index == 1 {
        reveal_strlit("created.background");
    } else if index == 2 {
        reveal_strlit("created.border");
    } else if index == 3 {
        reveal_strlit("success");
    } else if index == 4 {
        reveal_strlit("success.background");
    } else if index == 5 {
        reveal_strlit("success.border");
    } else if index == 6 {
        reveal_strlit("deleted");
    } else if index == 7 {
        reveal_strlit("deleted.background");
    } else if index == 8 {
        reveal_strlit("deleted.border");
    } else if index == 9 {
        reveal_strlit("error");
    } else if index == 10 {
        reveal_strlit("error.background");
    } else if index == 11 {
        reveal_strlit("error.border");
    } else if index == 12 {
        reveal_strlit("conflict");
    } else if index == 13 {
        reveal_strlit("conflict.background");
    } else if index == 14 {
        reveal_strlit("conflict.border");
    } else if index == 15 {
        reveal_strlit("modified");
    } else if index == 16 {
        reveal_strlit("modified.background");
    } else if index == 17 {
        reveal_strlit("modified.border");
    } else if index == 18 {
        reveal_strlit("warning");
    } else if index == 19 {
        reveal_strlit("warning.background");
    } else if index == 20 {
        reveal_strlit("warning.border");
    } else if index == 21 {
        reveal_strlit("info");
    } else if index == 22 {
        reveal_strlit("info.background");
    } else if index == 23 {
        reveal_strlit("info.border");
    } else if index == 24 {
        reveal_strlit("renamed");
    } else if index == 25 {
        reveal_strlit("renamed.background");
    } else if index == 26 {
        reveal_strlit("renamed.border");
    } else if index == 27 {
        reveal_strlit("predictive");
    } else if index == 28 {
        reveal_strlit("predictive.background");
    } else if index == 29 {
        reveal_strlit("predictive.border");
    } else if index == 30 {
        reveal_strlit("hint");
    } else if index == 31 {
        reveal_strlit("hint.background");
    } else if index == 32 {
        reveal_strlit("hint.border");
    } else if index == 33 {
        reveal_strlit("hidden");
    } else if index == 34 {
        reveal_strlit("hidden.background");
    } else if index == 35 {
        reveal_strlit("hidden.border");
    } else if index == 36 {
        reveal_strlit("ignored");
    }
}

proof fn lemma_role_numbers_from_37(index: int)
    requires
        37 <= index < 74,
    ensures
        role_number(STYLE_ROLES@[index]@) == index,
{
    reveal(role_number);
    if index == 37 {
        reveal_strlit("ignored.background");
    } else if index == 38 {
        reveal_strlit("ignored.border");
    } else if index == 39 {
        reveal_strlit("unreachable");
    } else if index == 40 {
        reveal_strlit("unreachable.background");
    } else if index == 41 {
        reveal_strlit("unreachable.border");
    } else if index == 42 {
        reveal_strlit("border");
    } else if index == 43 {
        reveal_strlit("border.variant");
    } else if index == 44 {
        reveal_strlit("border.focused");
    } else if index == 45 {
        reveal_strlit("border.selected");
    } else if index == 46 {
        reveal_strlit("border.disabled");
    } else if index == 47 {
        reveal_strlit("element.background");
    } else if index == 48 {
        reveal_strlit("element.selection_background");
    } else if index == 49 {
        reveal_strlit("drop_target.background");
    } else if index == 50 {
        reveal_strlit("drop_target.border");
    } else if index == 51 {
        reveal_strlit("debugger.accent");
    } else if index == 52 {
        reveal_strlit("tab_bar.background");
    } else if index == 53 {
        reveal_strlit("tab.inactive_background");
    } else if index == 54 {
        reveal_strlit("search.match_background");
    } else if index == 55 {
        reveal_strlit("search.active_match_background");
    } else if index == 56 {
        reveal_strlit("panel.background");
    } else if index == 57 {
        reveal_strlit("panel.focused_border");
    } else if index == 58 {
        reveal_strlit("panel.indent_guide");
    } else if index == 59 {
        reveal_strlit("panel.indent_guide_hover");
    } else if index == 60 {
        reveal_strlit("panel.indent_guide_active");
    } else if index == 61 {
        reveal_strlit("panel.overlay_background");
    } else if index == 62 {
        reveal_strlit("panel.overlay_hover");
    } else if index == 63 {
        reveal_strlit("pane.focused_border");
    } else if index == 64 {
        reveal_strlit("pane_group.border");
    } else if index == 65 {
        reveal_strlit("scrollbar.thumb.background");
    } else if index == 66 {
        reveal_strlit("scrollbar.thumb.hover_background");
    } else if index == 67 {
        reveal_strlit("scrollbar.thumb.active_background");
    } else if index == 68 {
        reveal_strlit("scrollbar.thumb.border");
    } else if index == 69 {
        reveal_strlit("scrollbar.track.border");
    } else if index == 70 {
        reveal_strlit("minimap.thumb.background");
    } else if index == 71 {
        reveal_strlit("minimap.thumb.hover_background");
    } else if index == 72 {
        reveal_strlit("minimap.thumb.active_background");
    } else if index == 73 {
        reveal_strlit("minimap.thumb.border");
    }
}

proof fn lemma_role_numbers_from_74(index: int)
    requires
        74 <= index < 111,
    ensures
        role_number(STYLE_ROLES@[index]@) == index,
{
    reveal(role_number);
    if index == 74 {
        reveal_strlit("editor.subheader.background");
    } else if index == 75 {
        reveal_strlit("editor.debugger_active_line.background");
    } else if index == 76 {
        reveal_strlit("editor.line_number");
    } else if index == 77 {
        reveal_strlit("editor.active_line_number");
    } else if index == 78 {
        reveal_strlit("editor.hover_line_number");
    } else if index == 79 {
        reveal_strlit("editor.invisible");
    } else if index == 80 {
        reveal_strlit("editor.indent_guide");
    } else if index == 81 {
        reveal_strlit("editor.indent_guide_active");
    } else if index == 82 {
        reveal_strlit("editor.document_highlight.write_background");
    } else if index == 83 {
        reveal_strlit("editor.document_highlight.bracket_background");
    } else if index == 84 {
        reveal_strlit("editor.diff_hunk.added.background");
    } else if index == 85 {
        reveal_strlit("editor.diff_hunk.added.hollow_background");
    } else if index == 86 {
        reveal_strlit("editor.diff_hunk.added.hollow_border");
    } else if index == 87 {
        reveal_strlit("editor.diff_hunk.deleted.background");
    } else if index == 88 {
        reveal_strlit("editor.diff_hunk.deleted.hollow_background");
    } else if index == 89 {
        reveal_strlit("editor.diff_hunk.deleted.hollow_border");
    } else if index == 90 {
        reveal_strlit("terminal.background");
    } else if index == 91 {
        reveal_strlit("terminal.ansi.background");
    } else if index == 92 {
        reveal_strlit("terminal.dim_foreground");
    } else if index == 93 {
        reveal_strlit("terminal.foreground");
    } else if index == 94 {
        reveal_strlit("terminal.bright_foreground");
    } else if index == 95 {
        reveal_strlit("terminal.ansi.dim_black");
    } else if index == 96 {
        reveal_strlit("terminal.ansi.black");
    } else if index == 97 {
        reveal_strlit("terminal.ansi.bright_black");
    } else if index == 98 {
        reveal_strlit("terminal.ansi.dim_red");
    } else if index == 99 {
        reveal_strlit("terminal.ansi.red");
    } else if index == 100 {
        reveal_strlit("terminal.ansi.bright_red");
    } else if index == 101 {
        reveal_strlit("terminal.ansi.dim_green");
    } else if index == 102 {
        reveal_strlit("terminal.ansi.green");
    } else if index == 103 {
        reveal_strlit("terminal.ansi.bright_green");
    } else if index == 104 {
        reveal_strlit("terminal.ansi.dim_yellow");
    } else if index == 105 {
        reveal_strlit("terminal.ansi.yellow");
    } else if index == 106 {
        reveal_strlit("terminal.ansi.bright_yellow");
    } else if index == 107 {
        reveal_strlit("terminal.ansi.dim_blue");
    } else if index == 108 {
        reveal_strlit("terminal.ansi.blue");
    } else if index == 109 {
        reveal_strlit("terminal.ansi.bright_blue");
    } else if index == 110 {
        reveal_strlit("terminal.ansi.dim_magenta");
    }
}

proof fn lemma_role_numbers_from_111(index: int)
    requires
        111 <= index < 148,
    ensures
        role_number(STYLE_ROLES@[index]@) == index,
{
    reveal(role_number);
    if index == 111 {
        reveal_strlit("terminal.ansi.magenta");
    } else if index == 112 {
        reveal_strlit("terminal.ansi.bright_magenta");
    } else if index == 113 {
        reveal_strlit("terminal.ansi.dim_cyan");
    } else if index == 114 {
        reveal_strlit("terminal.ansi.cyan");
    } else if index == 115 {
        reveal_strlit("terminal.ansi.bright_cyan");
    } else if index == 116 {
        reveal_strlit("terminal.ansi.dim_white");
    } else if index == 117 {
        reveal_strlit("terminal.ansi.white");
    } else if index == 118 {
        reveal_strlit("terminal.ansi.bright_white");
    } else if index == 119 {
        reveal_strlit("version_control.added");
    } else if index == 120 {
        reveal_strlit("version_control.deleted");
    } else if index == 121 {
        reveal_strlit("version_control.modified");
    } else if index == 122 {
        reveal_strlit("version_control.renamed");
    } else if index == 123 {
        reveal_strlit("version_control.conflict");
    } else if index == 124 {
        reveal_strlit("version_control.ignored");
    } else if index == 125 {
        reveal_strlit("version_control.word_added");
    } else if index == 126 {
        reveal_strlit("version_control.word_deleted");
    } else if index == 127 {
        reveal_strlit("version_control.conflict_marker.ours");
    } else if index == 128 {
        reveal_strlit("version_control.conflict_marker.theirs");
    } else if index == 129 {
        reveal_strlit("vim.yank.background");
    } else if index == 130 {
        reveal_strlit("vim.helix_jump_label.foreground");
    } else if index == 131 {
        reveal_strlit("vim.normal.foreground");
    } else if index == 132 {
        reveal_strlit("vim.normal.background");
    } else if index == 133 {
        reveal_strlit("vim.insert.foreground");
    } else if index == 134 {
        reveal_strlit("vim.insert.background");
    } else if index == 135 {
        reveal_strlit("vim.replace.foreground");
    } else if index == 136 {
        reveal_strlit("vim.replace.background");
    } else if index == 137 {
        reveal_strlit("vim.visual.foreground");
    } else if index == 138 {
        reveal_strlit("vim.visual.background");
    } else if index == 139 {
        reveal_strlit("vim.visual_line.foreground");
    } else if index == 140 {
        reveal_strlit("vim.visual_line.background");
    } else if index == 141 {
        reveal_strlit("vim.visual_block.foreground");
    } else if index == 142 {
        reveal_strlit("vim.visual_block.background");
    } else if index == 143 {
        reveal_strlit("vim.helix_normal.foreground");
    } else if index == 144 {
        reveal_strlit("vim.helix_normal.background");
    } else if index == 145 {
        reveal_strlit("vim.helix_select.foreground");
    } else if index == 146 {
        reveal_strlit("vim.helix_select.background");
    } else if index == 147 {
        reveal_strlit("editor.background");
    }
}

proof fn lemma_role_numbers_from_148(index: int)
    requires
        148 <= index < 185,
    ensures
        role_number(STYLE_ROLES@[index]@) == index,
{
    reveal(role_number);
    if index == 148 {
        reveal_strlit("editor.gutter.background");
    } else if index == 149 {
        reveal_strlit("tab.active_background");
    } else if index == 150 {
        reveal_strlit("toolbar.background");
    } else if index == 151 {
        reveal_strlit("background");
    } else if index == 152 {
        reveal_strlit("status_bar.background");
    } else if index == 153 {
        reveal_strlit("title_bar.background");
    } else if index == 154 {
        reveal_strlit("elevated_surface.background");
    } else if index == 155 {
        reveal_strlit("surface.background");
    } else if index == 156 {
        reveal_strlit("element.disabled");
    } else if index == 157 {
        reveal_strlit("ghost_element.disabled");
    } else if index == 158 {
        reveal_strlit("title_bar.inactive_background");
    } else if index == 159 {
        reveal_strlit("editor.highlighted_line.background");
    } else if index == 160 {
        reveal_strlit("text");
    } else if index == 161 {
        reveal_strlit("icon");
    } else if index == 162 {
        reveal_strlit("text.muted");
    } else if index == 163 {
        reveal_strlit("text.placeholder");
    } else if index == 164 {
        reveal_strlit("text.disabled");
    } else if index == 165 {
        reveal_strlit("icon.muted");
    } else if index == 166 {
        reveal_strlit("icon.placeholder");
    } else if index == 167 {
        reveal_strlit("icon.disabled");
    } else if index == 168 {
        reveal_strlit("text.accent");
    } else if index == 169 {
        reveal_strlit("icon.accent");
    } else if index == 170 {
        reveal_strlit("link_text.hover");
    } else if index == 171 {
        reveal_strlit("editor.foreground");
    } else if index == 172 {
        reveal_strlit("element.hover");
    } else if index == 173 {
        reveal_strlit("element.active");
    } else if index == 174 {
        reveal_strlit("element.selected");
    } else if index == 175 {
        reveal_strlit("ghost_element.hover");
    } else if index == 176 {
        reveal_strlit("ghost_element.active");
    } else if index == 177 {
        reveal_strlit("ghost_element.selected");
    } else if index == 178 {
        reveal_strlit("border.transparent");
    } else if index == 179 {
        reveal_strlit("ghost_element.background");
    } else if index == 180 {
        reveal_strlit("scrollbar.track.background");
    } else if index == 181 {
        reveal_strlit("editor.active_line.background");
    } else if index == 182 {
        reveal_strlit("editor.wrap_guide");
    } else if index == 183 {
        reveal_strlit("editor.active_wrap_guide");
    } else if index == 184 {
        reveal_strlit("editor.document_highlight.read_background");
    }
}

/// Every role has its own number.
pub proof fn lemma_role_numbers(index: int)
    requires
        0 <= index < STYLE_ROLES@.len(),
    ensures
        role_number(STYLE_ROLES@[index]@) == index,
{
    if index < 37 {
        lemma_role_numbers_from_0(index);
    } else if index < 74 {
        lemma_role_numbers_from_37(index);
    } else if index < 111 {
        lemma_role_numbers_from_74(index);
    } else if index < 148 {
        lemma_role_numbers_from_111(index);
    } else if index < 185 {
        lemma_role_numbers_from_148(index);
    }
}

/// No role is named twice.
pub proof fn lemma_roles_are_distinct(first: int, second: int)
    requires
        0 <= first < STYLE_ROLES@.len(),
        0 <= second < STYLE_ROLES@.len(),
        STYLE_ROLES@[first]@ == STYLE_ROLES@[second]@,
    ensures
        first == second,
{
    lemma_role_numbers(first);
    lemma_role_numbers(second);
}

/// The fields of a style that hold no color are no color roles.
pub proof fn lemma_other_fields_are_no_roles()
    ensures
        role_number("background.appearance"@) == 185,
        role_number("accents"@) == 186,
        role_number("players"@) == 187,
        role_number("syntax"@) == 188,
{
    reveal(role_number);
    reveal_strlit("background.appearance");
    reveal_strlit("accents");
    reveal_strlit("players");
    reveal_strlit("syntax");
}

} // verus!
