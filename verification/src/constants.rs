//! Names and numbers that the theme schema and the generator's policy fix.
//!
//! Contrast ratios, color distances and opacities are whole thousandths.

use vstd::prelude::*;

verus! {

pub const SCHEMA_URL: &'static str = "https://zed.dev/schema/themes/v0.2.0.json";

pub const THEME_NAME: &'static str = "Omarchy";

// This grid oversamples the 8-bit output: a coarser one skips feasible boundary
// colors after gamut mapping.
pub const CANDIDATE_LIGHTNESS_STEPS: u16 = 384;

pub const CANDIDATE_CHROMA_STEPS: u8 = 16;

// Search targets leave quantization headroom above the corresponding hard floors.
pub const TEXT_CONTRAST: u32 = 4520;

pub const CONTROL_CONTRAST: u32 = 3020;

pub const PASSIVE_CONTRAST: u32 = 1520;

pub const HARD_TEXT_CONTRAST: u32 = 4500;

pub const HARD_CONTROL_CONTRAST: u32 = 3000;

pub const HARD_PASSIVE_CONTRAST: u32 = 1500;

pub const TERMINAL_NORMAL_PREFERRED: u32 = 5520;

pub const TERMINAL_BRIGHT_PREFERRED: u32 = 7020;

pub const STATE_HOVER_CONTRAST: u32 = 1200;

pub const STATE_ACTIVE_CONTRAST: u32 = 1300;

pub const STATE_SELECTED_CONTRAST: u32 = 1400;

pub const STATE_CONSECUTIVE_CONTRAST: u32 = 1050;

pub const STATE_CONSECUTIVE_DELTA_E: u32 = 25;

pub const STATE_BASE_CONTRAST_STEP: u32 = 100;

pub const RUNTIME_STATE_BASE_CONTRAST_STEP: u32 = 1;

pub const RUNTIME_STATE_CONSECUTIVE_CONTRAST: u32 = 1010;

pub const RUNTIME_STATE_CONSECUTIVE_DELTA_E: u32 = 5;

pub const LAYER_HOVER_CONTRAST: u32 = 1350;

pub const LAYER_ACTIVE_CONTRAST: u32 = 1550;

pub const LAYER_SELECTED_CONTRAST: u32 = 1750;

pub const TAB_STATE_CONTRAST: u32 = 1080;

pub const SEARCH_MATCH_CONTRAST: u32 = 1200;

pub const SEARCH_ACTIVE_CONTRAST: u32 = 1400;

pub const FOCUSED_SELECTION_CONTRAST: u32 = 1200;

pub const FOCUSED_SELECTION_DELTA_E: u32 = 40;

pub const PLAYER_SELECTION_DELTA_E: u32 = 1;

pub const OVERLAY_MAX_ALPHA: u8 = 250;

pub const PREFERRED_HIGHLIGHT_MAX_ALPHA: u8 = 166;

pub const WORD_OVERLAY_MAX_ALPHA: u8 = 198;

pub const LIGHT_DIFF_HUNK_FILLED_OPACITY: u32 = 160;

pub const LIGHT_DIFF_HUNK_HOLLOW_BACKGROUND_OPACITY: u32 = 80;

pub const LIGHT_DIFF_HUNK_HOLLOW_BORDER_OPACITY: u32 = 480;

pub const DARK_DIFF_HUNK_FILLED_OPACITY: u32 = 120;

pub const DARK_DIFF_HUNK_HOLLOW_BACKGROUND_OPACITY: u32 = 60;

pub const DARK_DIFF_HUNK_HOLLOW_BORDER_OPACITY: u32 = 360;

pub const DIFF_FILL_CONTRAST: u32 = 1300;

pub const DIFF_HOLLOW_CONTRAST: u32 = 1200;

pub const WORD_DIFF_CONTRAST: u32 = 1100;

pub const PRESENTATION_WORD_DIFF_CONTRAST: u32 = 1050;

pub const DIFF_PAIR_CONTRAST: u32 = 1010;

pub const DIFF_LUMINANCE_SEPARATION_CONTRAST: u32 = 1120;

pub const DIFF_NORMAL_FLOOR_DELTA_E: u32 = 30;

pub const DIFF_CVD_FLOOR_DELTA_E: u32 = 30;

pub const DIFF_NORMAL_DELTA_E: u32 = 75;

pub const DIFF_CVD_DELTA_E: u32 = 35;

pub const DIFF_BORDER_RETENTION_DELTA_E: u32 = 5;

pub const DIFF_BORDER_RETENTION_RATIO: u32 = 150;

pub const THUMB_HOVER_CONTRAST: u32 = 3520;

pub const THUMB_ACTIVE_CONTRAST: u32 = 4020;

pub const STATE_HOVER_DELTA_E: u32 = 40;

pub const STATE_ACTIVE_DELTA_E: u32 = 60;

pub const STATE_SELECTED_DELTA_E: u32 = 80;

pub const ACCENT_NORMAL_DELTA_E: u32 = 35;

pub const ACCENT_CVD_DELTA_E: u32 = 20;

pub const FOUNDATION_FIELDS: [&'static str; 33] = [
    "border",
    "border.variant",
    "border.focused",
    "border.selected",
    "border.transparent",
    "border.disabled",
    "elevated_surface.background",
    "surface.background",
    "background",
    "element.background",
    "element.hover",
    "element.active",
    "element.selected",
    "element.disabled",
    "element.selection_background",
    "drop_target.background",
    "drop_target.border",
    "ghost_element.background",
    "ghost_element.hover",
    "ghost_element.active",
    "ghost_element.selected",
    "ghost_element.disabled",
    "text",
    "text.muted",
    "text.placeholder",
    "text.disabled",
    "text.accent",
    "icon",
    "icon.muted",
    "icon.disabled",
    "icon.placeholder",
    "icon.accent",
    "debugger.accent",
];

pub const CHROME_FIELDS: [&'static str; 28] = [
    "status_bar.background",
    "title_bar.background",
    "title_bar.inactive_background",
    "toolbar.background",
    "tab_bar.background",
    "tab.inactive_background",
    "tab.active_background",
    "search.match_background",
    "search.active_match_background",
    "panel.background",
    "panel.focused_border",
    "panel.indent_guide",
    "panel.indent_guide_hover",
    "panel.indent_guide_active",
    "panel.overlay_background",
    "panel.overlay_hover",
    "pane.focused_border",
    "pane_group.border",
    "scrollbar.thumb.background",
    "scrollbar.thumb.hover_background",
    "scrollbar.thumb.active_background",
    "scrollbar.thumb.border",
    "scrollbar.track.background",
    "scrollbar.track.border",
    "minimap.thumb.background",
    "minimap.thumb.hover_background",
    "minimap.thumb.active_background",
    "minimap.thumb.border",
];

pub const EDITOR_FIELDS: [&'static str; 24] = [
    "editor.foreground",
    "editor.background",
    "editor.gutter.background",
    "editor.subheader.background",
    "editor.active_line.background",
    "editor.highlighted_line.background",
    "editor.debugger_active_line.background",
    "editor.line_number",
    "editor.active_line_number",
    "editor.hover_line_number",
    "editor.invisible",
    "editor.wrap_guide",
    "editor.active_wrap_guide",
    "editor.indent_guide",
    "editor.indent_guide_active",
    "editor.document_highlight.read_background",
    "editor.document_highlight.write_background",
    "editor.document_highlight.bracket_background",
    "editor.diff_hunk.added.background",
    "editor.diff_hunk.added.hollow_background",
    "editor.diff_hunk.added.hollow_border",
    "editor.diff_hunk.deleted.background",
    "editor.diff_hunk.deleted.hollow_background",
    "editor.diff_hunk.deleted.hollow_border",
];

pub const TERMINAL_FIELDS: [&'static str; 29] = [
    "terminal.background",
    "terminal.foreground",
    "terminal.ansi.background",
    "terminal.bright_foreground",
    "terminal.dim_foreground",
    "terminal.ansi.black",
    "terminal.ansi.bright_black",
    "terminal.ansi.dim_black",
    "terminal.ansi.red",
    "terminal.ansi.bright_red",
    "terminal.ansi.dim_red",
    "terminal.ansi.green",
    "terminal.ansi.bright_green",
    "terminal.ansi.dim_green",
    "terminal.ansi.yellow",
    "terminal.ansi.bright_yellow",
    "terminal.ansi.dim_yellow",
    "terminal.ansi.blue",
    "terminal.ansi.bright_blue",
    "terminal.ansi.dim_blue",
    "terminal.ansi.magenta",
    "terminal.ansi.bright_magenta",
    "terminal.ansi.dim_magenta",
    "terminal.ansi.cyan",
    "terminal.ansi.bright_cyan",
    "terminal.ansi.dim_cyan",
    "terminal.ansi.white",
    "terminal.ansi.bright_white",
    "terminal.ansi.dim_white",
];

pub const LINK_VC_FIELDS: [&'static str; 11] = [
    "link_text.hover",
    "version_control.added",
    "version_control.deleted",
    "version_control.modified",
    "version_control.renamed",
    "version_control.conflict",
    "version_control.ignored",
    "version_control.word_added",
    "version_control.word_deleted",
    "version_control.conflict_marker.ours",
    "version_control.conflict_marker.theirs",
];

pub const VIM_FIELDS: [&'static str; 18] = [
    "vim.normal.background",
    "vim.insert.background",
    "vim.replace.background",
    "vim.visual.background",
    "vim.visual_line.background",
    "vim.visual_block.background",
    "vim.yank.background",
    "vim.helix_jump_label.foreground",
    "vim.helix_normal.background",
    "vim.helix_select.background",
    "vim.normal.foreground",
    "vim.insert.foreground",
    "vim.replace.foreground",
    "vim.visual.foreground",
    "vim.visual_line.foreground",
    "vim.visual_block.foreground",
    "vim.helix_normal.foreground",
    "vim.helix_select.foreground",
];

pub const STATUS_NAMES: [&'static str; 14] = [
    "conflict",
    "created",
    "deleted",
    "error",
    "hidden",
    "hint",
    "ignored",
    "info",
    "modified",
    "predictive",
    "renamed",
    "success",
    "unreachable",
    "warning",
];

pub const BASE_SYNTAX_FIELDS: [&'static str; 47] = [
    "attribute",
    "boolean",
    "comment",
    "comment.doc",
    "constant",
    "constructor",
    "diff.minus",
    "diff.plus",
    "embedded",
    "emphasis",
    "emphasis.strong",
    "enum",
    "function",
    "function.builtin",
    "hint",
    "keyword",
    "label",
    "link_text",
    "link_uri",
    "namespace",
    "number",
    "operator",
    "predictive",
    "preproc",
    "primary",
    "property",
    "punctuation",
    "punctuation.bracket",
    "punctuation.delimiter",
    "punctuation.list_marker",
    "punctuation.markup",
    "punctuation.special",
    "selector",
    "selector.pseudo",
    "string",
    "string.escape",
    "string.regex",
    "string.special",
    "string.special.symbol",
    "tag",
    "text.literal",
    "title",
    "type",
    "variable",
    "variable.parameter",
    "variable.special",
    "variant",
];

pub const ADDITIONAL_SYNTAX_FIELDS: [&'static str; 9] = [
    "concept",
    "diff",
    "lifetime",
    "markup",
    "module",
    "storageclass",
    "strikethrough",
    "text",
    "warning",
];

pub const CANONICAL_COLOR_KEYS: [&'static str; 44] = [
    "accent",
    "selection",
    "muted",
    "background",
    "dark_background",
    "darker_background",
    "lighter_background",
    "foreground",
    "dark_foreground",
    "light_foreground",
    "bright_foreground",
    "red",
    "yellow",
    "orange",
    "green",
    "cyan",
    "blue",
    "magenta",
    "brown",
    "bright_red",
    "bright_yellow",
    "bright_green",
    "bright_cyan",
    "bright_blue",
    "bright_magenta",
    "color0",
    "color1",
    "color2",
    "color3",
    "color4",
    "color5",
    "color6",
    "color7",
    "color8",
    "color9",
    "color10",
    "color11",
    "color12",
    "color13",
    "color14",
    "color15",
    "cursor",
    "selection_background",
    "selection_foreground",
];

/// Other names the resolver may use for a canonical key.
pub const COLOR_ALIAS_NAMES: [&'static str; 10] = [
    "bg",
    "dark_bg",
    "darker_bg",
    "lighter_bg",
    "fg",
    "dark_fg",
    "light_fg",
    "bright_fg",
    "purple",
    "bright_purple",
];

/// The canonical key of each alias, in the same order.
pub const COLOR_ALIAS_TARGETS: [&'static str; 10] = [
    "background",
    "dark_background",
    "darker_background",
    "lighter_background",
    "foreground",
    "dark_foreground",
    "light_foreground",
    "bright_foreground",
    "magenta",
    "bright_magenta",
];

/// How far the two colors of a pair stand apart, in thousandths. With an
/// alternative, either its contrast or both of its distances must be reached too.
#[derive(Clone, Copy, Debug)]
pub struct PairContract {
    pub contrast: u32,
    pub normal_delta_e: u32,
    pub cvd_delta_e: u32,
    pub separation_alternative: Option<(u32, u32, u32)>,
}

pub fn semantic_pair_contract() -> (contract: PairContract)
    ensures
        contract == (PairContract {
            contrast: 1050,
            normal_delta_e: 75,
            cvd_delta_e: 40,
            separation_alternative: Some((1350, 100, 50)),
        }),
{
    PairContract {
        contrast: 1050,
        normal_delta_e: 75,
        cvd_delta_e: 40,
        separation_alternative: Some((1350, 100, 50)),
    }
}

pub fn syntax_diff_contract() -> (contract: PairContract)
    ensures
        contract == (PairContract {
            contrast: 1100,
            normal_delta_e: 80,
            cvd_delta_e: 40,
            separation_alternative: None,
        }),
{
    PairContract {
        contrast: 1100,
        normal_delta_e: 80,
        cvd_delta_e: 40,
        separation_alternative: None,
    }
}

} // verus!
