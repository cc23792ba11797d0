//! Assembles the theme document from the colors that were solved.

use crate::color::{hex_color, invalid_hex_message, is_hex, with_alpha, Rgba};
use crate::constants::{SCHEMA_URL, THEME_NAME};
use crate::json::{list_at, object_at, text_at, Json};
use crate::map::{lemma_set_of_push, TextMap};
use crate::syntax::policy::{capture_names, lemma_captures_are_distinct};
use crate::syntax::SyntaxStyle;
use crate::text::slice_views;
use crate::theme::manifest::{lemma_roles_are_the_manifest, lemma_status_names};
use crate::theme::roles::{
    lemma_role_numbers, lemma_other_fields_are_no_roles, role_number, STYLE_ROLES,
};
use crate::theme::document::{
    accent_fault, capture_fault, entry_fields, is_fixed_field, is_status_field, is_style_field,
    is_valid_root, is_valid_style, is_valid_theme, player_fault, role_fault, root_fields,
    style_fields, theme_entry,
};
use crate::theme::style::{
    filled, first_kind_fault, is_fresh, kind_fault, kinds_of, lemma_filled, without_kinds,
    StyleBuilder, StatusColors, StatusSet, StyleColors,
};
use crate::theme::tokens::{
    holds_hex, ContentTokens, DerivedTokens, InteractionTokens, OpaqueColor, OverlayColor,
    StatusChannel, StatusTokens, SurfaceTokens, ThemeTokens,
};
use crate::Result;
use vstd::prelude::*;

verus! {

/// The fault of a color of the given kind, or else `rest`.
pub open spec fn fault_or(opaque: bool, value: Seq<char>, rest: Option<Seq<char>>) -> Option<
    Seq<char>,
> {
    if kind_fault(opaque, value) is Some {
        kind_fault(opaque, value)
    } else {
        rest
    }
}

/// The first of two faults.
pub open spec fn either_fault(first: Option<Seq<char>>, second: Option<Seq<char>>) -> Option<
    Seq<char>,
> {
    if first is Some {
        first
    } else {
        second
    }
}

impl StatusColors {
    pub open spec fn gives(&self, channel: StatusChannel) -> bool {
        &&& channel.foreground@ == self.foreground@
        &&& channel.background@ == self.background@
        &&& channel.border@ == self.border@
    }
}

/// What is wrong with the first color of a status channel.
pub open spec fn channel_fault(
    foreground: Seq<char>,
    background: Seq<char>,
    border: Seq<char>,
) -> Option<Seq<char>> {
    fault_or(true, foreground, fault_or(true, background, fault_or(true, border, None)))
}

fn status_channel(foreground: &String, background: &String, border: &String) -> (result: Result<
    StatusChannel,
>)
    ensures
        result is Ok <==> channel_fault(foreground@, background@, border@) is None,
        result matches Ok(channel) ==> channel.foreground@ == foreground@ && channel.background@
            == background@ && channel.border@ == border@,
        result matches Err(error) ==> error.is_invalid(
            channel_fault(foreground@, background@, border@)->0,
        ),
{
    let foreground = OpaqueColor::new(foreground.clone())?;
    let background = OpaqueColor::new(background.clone())?;
    let border = OpaqueColor::new(border.clone())?;
    Ok(StatusChannel { foreground, background, border })
}

impl StatusSet {
    pub open spec fn gives(&self, tokens: StatusTokens) -> bool {
        &&& self.created.gives(tokens.positive)
        &&& self.deleted.gives(tokens.negative)
        &&& self.warning.gives(tokens.warning)
        &&& self.info.gives(tokens.informational)
        &&& self.predictive.gives(tokens.predictive)
        &&& self.hint.gives(tokens.hint)
        &&& self.hidden.gives(tokens.hidden)
        &&& tokens.ignored.foreground@ == self.hidden.foreground@
        &&& tokens.ignored.background@ == self.ignored_background@
        &&& tokens.ignored.border@ == self.ignored_border@
        &&& self.unreachable.gives(tokens.unreachable)
    }

    /// What is wrong with the first color of a status.
    pub open spec fn fault(&self) -> Option<Seq<char>> {
        either_fault(
            channel_fault(self.created.foreground@, self.created.background@, self.created.border@),
            either_fault(
                channel_fault(
                    self.deleted.foreground@,
                    self.deleted.background@,
                    self.deleted.border@,
                ),
                either_fault(
                    channel_fault(
                        self.warning.foreground@,
                        self.warning.background@,
                        self.warning.border@,
                    ),
                    either_fault(
                        channel_fault(
                            self.info.foreground@,
                            self.info.background@,
                            self.info.border@,
                        ),
                        either_fault(
                            channel_fault(
                                self.predictive.foreground@,
                                self.predictive.background@,
                                self.predictive.border@,
                            ),
                            either_fault(
                                channel_fault(
                                    self.hint.foreground@,
                                    self.hint.background@,
                                    self.hint.border@,
                                ),
                                either_fault(
                                    channel_fault(
                                        self.hidden.foreground@,
                                        self.hidden.background@,
                                        self.hidden.border@,
                                    ),
                                    either_fault(
                                        channel_fault(
                                            self.hidden.foreground@,
                                            self.ignored_background@,
                                            self.ignored_border@,
                                        ),
                                        channel_fault(
                                            self.unreachable.foreground@,
                                            self.unreachable.background@,
                                            self.unreachable.border@,
                                        ),
                                    ),
                                ),
                            ),
                        ),
                    ),
                ),
            ),
        )
    }

    fn tokens(&self) -> (result: Result<StatusTokens>)
        ensures
            result is Ok <==> self.fault() is None,
            result matches Ok(tokens) ==> self.gives(tokens),
            result matches Err(error) ==> error.is_invalid(self.fault()->0),
    {
        let positive = status_channel(
            &self.created.foreground,
            &self.created.background,
            &self.created.border,
        )?;
        let negative = status_channel(
            &self.deleted.foreground,
            &self.deleted.background,
            &self.deleted.border,
        )?;
        let warning = status_channel(
            &self.warning.foreground,
            &self.warning.background,
            &self.warning.border,
        )?;
        let informational = status_channel(
            &self.info.foreground,
            &self.info.background,
            &self.info.border,
        )?;
        let predictive = status_channel(
            &self.predictive.foreground,
            &self.predictive.background,
            &self.predictive.border,
        )?;
        let hint = status_channel(&self.hint.foreground, &self.hint.background, &self.hint.border)?;
        let hidden = status_channel(
            &self.hidden.foreground,
            &self.hidden.background,
            &self.hidden.border,
        )?;
        let ignored = status_channel(
            &self.hidden.foreground,
            &self.ignored_background,
            &self.ignored_border,
        )?;
        let unreachable = status_channel(
            &self.unreachable.foreground,
            &self.unreachable.background,
            &self.unreachable.border,
        )?;
        Ok(
            StatusTokens {
                positive,
                negative,
                warning,
                informational,
                predictive,
                hint,
                hidden,
                ignored,
                unreachable,
            },
        )
    }
}

impl StyleColors {
    /// The colors of the surfaces.
    pub open spec fn gives_surfaces(&self, tokens: SurfaceTokens) -> bool {
        &&& tokens.editor_canvas@ == self.canvas@
        &&& tokens.app_frame@ == self.chrome@
        &&& tokens.elevated@ == self.elevated@
        &&& tokens.secondary@ == self.surface@
        &&& tokens.inactive_control@ == self.chrome@
        &&& tokens.editor_highlighted_line@ == self.editor_highlighted_line@
    }

    /// What is wrong with the first color of these tokens.
    pub open spec fn surfaces_fault(&self) -> Option<Seq<char>> {
        fault_or(
            true,
            self.canvas@,
            fault_or(
                true,
                self.chrome@,
                fault_or(
                    true,
                    self.elevated@,
                    fault_or(
                        true,
                        self.surface@,
                        fault_or(
                            true,
                            self.chrome@,
                            fault_or(
                                false,
                                self.editor_highlighted_line@,
                                None,
                            ),
                        ),
                    ),
                ),
            ),
        )
    }

    fn surfaces_tokens(&self) -> (result: Result<SurfaceTokens>)
        ensures
            result is Ok <==> self.surfaces_fault() is None,
            result matches Ok(tokens) ==> self.gives_surfaces(tokens),
            result matches Err(error) ==> error.is_invalid(self.surfaces_fault()->0),
    {
        let editor_canvas = OpaqueColor::new(self.canvas.clone())?;
        let app_frame = OpaqueColor::new(self.chrome.clone())?;
        let elevated = OpaqueColor::new(self.elevated.clone())?;
        let secondary = OpaqueColor::new(self.surface.clone())?;
        let inactive_control = OpaqueColor::new(self.chrome.clone())?;
        let editor_highlighted_line = OverlayColor::new(self.editor_highlighted_line.clone())?;
        Ok(
            SurfaceTokens { editor_canvas, app_frame, elevated, secondary, inactive_control, editor_highlighted_line },
        )
    }

    /// The colors of text and icons.
    pub open spec fn gives_content(&self, tokens: ContentTokens) -> bool {
        &&& tokens.primary@ == self.semantic.primary@
        &&& tokens.muted@ == self.semantic.secondary@
        &&& tokens.placeholder@ == self.semantic.placeholder@
        &&& tokens.disabled@ == self.semantic.disabled@
        &&& tokens.icon_muted@ == self.semantic.icon_muted@
        &&& tokens.icon_placeholder@ == self.semantic.icon_placeholder@
        &&& tokens.icon_disabled@ == self.semantic.icon_disabled@
        &&& tokens.accent@ == self.content_accent@
        &&& tokens.editor_primary@ == self.editor_primary@
    }

    /// What is wrong with the first color of these tokens.
    pub open spec fn content_fault(&self) -> Option<Seq<char>> {
        fault_or(
            true,
            self.semantic.primary@,
            fault_or(
                true,
                self.semantic.secondary@,
                fault_or(
                    true,
                    self.semantic.placeholder@,
                    fault_or(
                        true,
                        self.semantic.disabled@,
                        fault_or(
                            true,
                            self.semantic.icon_muted@,
                            fault_or(
                                true,
                                self.semantic.icon_placeholder@,
                                fault_or(
                                    true,
                                    self.semantic.icon_disabled@,
                                    fault_or(
                                        true,
                                        self.content_accent@,
                                        fault_or(
                                            true,
                                            self.editor_primary@,
                                            None,
                                        ),
                                    ),
                                ),
                            ),
                        ),
                    ),
                ),
            ),
        )
    }

    fn content_tokens(&self) -> (result: Result<ContentTokens>)
        ensures
            result is Ok <==> self.content_fault() is None,
            result matches Ok(tokens) ==> self.gives_content(tokens),
            result matches Err(error) ==> error.is_invalid(self.content_fault()->0),
    {
        let primary = OpaqueColor::new(self.semantic.primary.clone())?;
        let muted = OpaqueColor::new(self.semantic.secondary.clone())?;
        let placeholder = OpaqueColor::new(self.semantic.placeholder.clone())?;
        let disabled = OpaqueColor::new(self.semantic.disabled.clone())?;
        let icon_muted = OpaqueColor::new(self.semantic.icon_muted.clone())?;
        let icon_placeholder = OpaqueColor::new(self.semantic.icon_placeholder.clone())?;
        let icon_disabled = OpaqueColor::new(self.semantic.icon_disabled.clone())?;
        let accent = OpaqueColor::new(self.content_accent.clone())?;
        let editor_primary = OpaqueColor::new(self.editor_primary.clone())?;
        Ok(
            ContentTokens { primary, muted, placeholder, disabled, icon_muted, icon_placeholder, icon_disabled, accent, editor_primary },
        )
    }

    /// The colors of interaction states. A selected ghost element looks like a
    /// selected element.
    pub open spec fn gives_interactions(&self, tokens: InteractionTokens) -> bool {
        &&& tokens.element_hover@ == self.element_hover@
        &&& tokens.element_active@ == self.element_active@
        &&& tokens.element_selected@ == self.element_selected@
        &&& tokens.ghost_hover@ == self.ghost_hover@
        &&& tokens.ghost_active@ == self.ghost_active@
        &&& tokens.ghost_selected@ == self.element_selected@
    }

    /// What is wrong with the first color of these tokens.
    pub open spec fn interactions_fault(&self) -> Option<Seq<char>> {
        fault_or(
            false,
            self.element_hover@,
            fault_or(
                false,
                self.element_active@,
                fault_or(
                    false,
                    self.element_selected@,
                    fault_or(
                        false,
                        self.ghost_hover@,
                        fault_or(
                            false,
                            self.ghost_active@,
                            fault_or(
                                false,
                                self.element_selected@,
                                None,
                            ),
                        ),
                    ),
                ),
            ),
        )
    }

    fn interactions_tokens(&self) -> (result: Result<InteractionTokens>)
        ensures
            result is Ok <==> self.interactions_fault() is None,
            result matches Ok(tokens) ==> self.gives_interactions(tokens),
            result matches Err(error) ==> error.is_invalid(self.interactions_fault()->0),
    {
        let element_hover = OverlayColor::new(self.element_hover.clone())?;
        let element_active = OverlayColor::new(self.element_active.clone())?;
        let element_selected = OverlayColor::new(self.element_selected.clone())?;
        let ghost_hover = OverlayColor::new(self.ghost_hover.clone())?;
        let ghost_active = OverlayColor::new(self.ghost_active.clone())?;
        let ghost_selected = OverlayColor::new(self.element_selected.clone())?;
        Ok(
            InteractionTokens { element_hover, element_active, element_selected, ghost_hover, ghost_active, ghost_selected },
        )
    }

    /// The structural color with the alpha byte `alpha`.
    pub open spec fn guide(&self, alpha: u8) -> Seq<char> {
        (Rgba { a: alpha, ..hex_color(self.semantic.structural@) }).hex_view()
    }

    /// The colors that follow from others. Wrap guides are faint structural lines.
    pub open spec fn gives_derived(&self, tokens: DerivedTokens) -> bool {
        &&& tokens.editor_active_line@ == self.editor_active_line@
        &&& tokens.wrap_guide@ == self.guide(0x0d)
        &&& tokens.active_wrap_guide@ == self.guide(0x1a)
        &&& tokens.document_read@ == self.document_read@
    }

    /// What is wrong with the first color of these tokens.
    pub open spec fn derived_fault(&self) -> Option<Seq<char>> {
        fault_or(false, self.editor_active_line@, fault_or(false, self.document_read@, None))
    }

    fn derived_tokens(&self, wrap_guide: String, active_wrap_guide: String) -> (result: Result<
        DerivedTokens,
    >)
        requires
            wrap_guide@ == self.guide(0x0d),
            active_wrap_guide@ == self.guide(0x1a),
        ensures
            result is Ok <==> self.derived_fault() is None,
            result matches Ok(tokens) ==> self.gives_derived(tokens),
            result matches Err(error) ==> error.is_invalid(self.derived_fault()->0),
    {
        proof {
            let structural = hex_color(self.semantic.structural@);
            crate::color::lemma_hex_round_trip(Rgba { a: 0x0d, ..structural });
            crate::color::lemma_hex_round_trip(Rgba { a: 0x1a, ..structural });
        }
        let editor_active_line = OverlayColor::new(self.editor_active_line.clone())?;
        let wrap_guide = OverlayColor::new(wrap_guide)?;
        let active_wrap_guide = OverlayColor::new(active_wrap_guide)?;
        let document_read = OverlayColor::new(self.document_read.clone())?;
        Ok(DerivedTokens { editor_active_line, wrap_guide, active_wrap_guide, document_read })
    }

    /// Whether `tokens` are the tokens of these colors.
    #[verifier::opaque]
    pub open spec fn gives(&self, tokens: ThemeTokens) -> bool {
        &&& self.gives_surfaces(tokens.surfaces)
        &&& self.gives_content(tokens.content)
        &&& self.gives_interactions(tokens.interactions)
        &&& self.statuses.gives(tokens.statuses)
        &&& self.gives_derived(tokens.derived)
    }

    /// What is wrong with the first token that has a color of the wrong kind.
    #[verifier::opaque]
    pub open spec fn token_fault(&self) -> Option<Seq<char>> {
        if !is_hex(self.semantic.structural@) {
            Some(invalid_hex_message(self.semantic.structural@))
        } else {
            either_fault(
                self.surfaces_fault(),
                either_fault(
                    self.content_fault(),
                    either_fault(
                        self.interactions_fault(),
                        either_fault(self.statuses.fault(), self.derived_fault()),
                    ),
                ),
            )
        }
    }

    /// The tokens of these colors.
    pub fn tokens(&self) -> (result: Result<ThemeTokens>)
        ensures
            result is Ok <==> self.token_fault() is None,
            result matches Ok(tokens) ==> self.gives(tokens),
            result matches Err(error) ==> error.is_invalid(self.token_fault()->0),
    {
        reveal(StyleColors::gives);
        reveal(StyleColors::token_fault);
        let wrap_guide = with_alpha(self.semantic.structural.as_str(), 0x0d)?;
        let active_wrap_guide = with_alpha(self.semantic.structural.as_str(), 0x1a)?;
        let surfaces = self.surfaces_tokens()?;
        let content = self.content_tokens()?;
        let interactions = self.interactions_tokens()?;
        let statuses = self.statuses.tokens()?;
        let derived = self.derived_tokens(wrap_guide, active_wrap_guide)?;
        Ok(ThemeTokens { surfaces, content, interactions, statuses, derived })
    }
}

/// Whether the table names the roles from number `from` on.
pub open spec fn is_numbered(table: Seq<(Seq<char>, Seq<char>)>, from: int) -> bool {
    forall|i: int| 0 <= i < table.len() ==> (#[trigger] table[i]).0 == STYLE_ROLES@[from + i]@
}

proof fn lemma_numbered_in_a_row(
    first: Seq<(Seq<char>, Seq<char>)>,
    second: Seq<(Seq<char>, Seq<char>)>,
    from: int,
)
    requires
        is_numbered(first, from),
        is_numbered(second, from + first.len()),
    ensures
        is_numbered(first + second, from),
{
    let both = first + second;
    assert forall|i: int| 0 <= i < both.len() implies (#[trigger] both[i]).0 == STYLE_ROLES@[from
        + i]@ by {
        if i < first.len() {
            assert(both[i] == first[i]);
        } else {
            assert(both[i] == second[i - first.len()]);
        }
    }
}

proof fn lemma_frame_names(colors: StyleColors)
    ensures
        is_numbered(without_kinds(colors.frame_table()), 42),
        colors.frame_table().len() == 14,
{
}

proof fn lemma_panel_names(colors: StyleColors)
    ensures
        is_numbered(without_kinds(colors.panel_table()), 56),
        colors.panel_table().len() == 18,
{
}

proof fn lemma_editor_names(colors: StyleColors)
    ensures
        is_numbered(without_kinds(colors.editor_table()), 74),
        colors.editor_table().len() == 16,
{
}

proof fn lemma_terminal_names(colors: StyleColors)
    ensures
        is_numbered(without_kinds(colors.terminal_table()), 90),
        colors.terminal_table().len() == 29,
{
}

proof fn lemma_version_control_names(colors: StyleColors)
    ensures
        is_numbered(without_kinds(colors.version_control_table()), 119),
        colors.version_control_table().len() == 10,
{
}

proof fn lemma_vim_names(colors: StyleColors)
    ensures
        is_numbered(without_kinds(colors.vim_table()), 129),
        colors.vim_table().len() == 18,
{
}

proof fn lemma_fixed_names(colors: StyleColors)
    ensures
        is_numbered(without_kinds(colors.fixed_table()), 42),
        colors.fixed_table().len() == 105,
{
    reveal(StyleColors::fixed_table);
    lemma_frame_names(colors);
    lemma_panel_names(colors);
    lemma_editor_names(colors);
    lemma_terminal_names(colors);
    lemma_version_control_names(colors);
    lemma_vim_names(colors);
    lemma_numbered_in_a_row(
        without_kinds(colors.frame_table()),
        without_kinds(colors.panel_table()),
        42,
    );
    assert(without_kinds(colors.frame_table() + colors.panel_table()) =~= without_kinds(
        colors.frame_table(),
    ) + without_kinds(colors.panel_table()));
    lemma_numbered_in_a_row(
        without_kinds(colors.frame_table() + colors.panel_table()),
        without_kinds(colors.editor_table()),
        42,
    );
    assert(without_kinds(
        colors.frame_table() + colors.panel_table() + colors.editor_table(),
    ) =~= without_kinds(
        colors.frame_table() + colors.panel_table(),
    ) + without_kinds(colors.editor_table()));
    lemma_numbered_in_a_row(
        without_kinds(colors.frame_table() + colors.panel_table() + colors.editor_table()),
        without_kinds(colors.terminal_table()),
        42,
    );
    assert(without_kinds(
        colors.frame_table() + colors.panel_table() + colors.editor_table() + colors.terminal_table(),
    ) =~= without_kinds(
        colors.frame_table() + colors.panel_table() + colors.editor_table(),
    ) + without_kinds(colors.terminal_table()));
    lemma_numbered_in_a_row(
        without_kinds(
            colors.frame_table() + colors.panel_table() + colors.editor_table() + colors.terminal_table(),
        ),
        without_kinds(colors.version_control_table()),
        42,
    );
    assert(without_kinds(
        colors.frame_table() + colors.panel_table() + colors.editor_table() + colors.terminal_table() + colors.version_control_table(),
    ) =~= without_kinds(
        colors.frame_table() + colors.panel_table() + colors.editor_table() + colors.terminal_table(),
    ) + without_kinds(colors.version_control_table()));
    lemma_numbered_in_a_row(
        without_kinds(
            colors.frame_table() + colors.panel_table() + colors.editor_table() + colors.terminal_table() + colors.version_control_table(),
        ),
        without_kinds(colors.vim_table()),
        42,
    );
    assert(without_kinds(
        colors.frame_table() + colors.panel_table() + colors.editor_table() + colors.terminal_table() + colors.version_control_table() + colors.vim_table(),
    ) =~= without_kinds(
        colors.frame_table() + colors.panel_table() + colors.editor_table() + colors.terminal_table() + colors.version_control_table(),
    ) + without_kinds(colors.vim_table()));
}

proof fn lemma_surface_names(tokens: ThemeTokens)
    ensures
        is_numbered(tokens.surface_table(), 147),
        tokens.surface_table().len() == 13,
{
}

proof fn lemma_content_names(tokens: ThemeTokens)
    ensures
        is_numbered(tokens.content_table(), 160),
        tokens.content_table().len() == 12,
{
}

proof fn lemma_interaction_names(tokens: ThemeTokens)
    ensures
        is_numbered(tokens.interaction_table(), 172),
        tokens.interaction_table().len() == 9,
{
}

proof fn lemma_derived_names(tokens: ThemeTokens)
    ensures
        is_numbered(tokens.derived_table(), 181),
        tokens.derived_table().len() == 4,
{
}

proof fn lemma_token_names(tokens: ThemeTokens)
    ensures
        is_numbered(tokens.role_table(), 147),
        tokens.role_table().len() == 38,
{
    reveal(ThemeTokens::role_table);
    lemma_surface_names(tokens);
    lemma_content_names(tokens);
    lemma_interaction_names(tokens);
    lemma_derived_names(tokens);
    lemma_numbered_in_a_row(tokens.surface_table(), tokens.content_table(), 147);
    lemma_numbered_in_a_row(
        tokens.surface_table() + tokens.content_table(),
        tokens.interaction_table(),
        147,
    );
    lemma_numbered_in_a_row(
        tokens.surface_table() + tokens.content_table() + tokens.interaction_table(),
        tokens.derived_table(),
        147,
    );
}

proof fn lemma_status_table_names(tokens: StatusTokens)
    ensures
        is_numbered(tokens.role_table(), 0),
        tokens.role_table().len() == 42,
{
    reveal(StatusTokens::role_table);
    lemma_status_names();
}

/// The colors of one player.
#[derive(Clone, Debug)]
pub struct PlayerColors {
    pub cursor: String,
    pub background: String,
    pub selection: String,
}

/// What a theme is assembled from.
#[derive(Debug)]
pub struct ThemeParts {
    pub mode: String,
    pub colors: StyleColors,
    pub accents: Vec<String>,
    pub players: Vec<PlayerColors>,
    pub syntax: Vec<SyntaxStyle>,
}

impl ThemeParts {
    /// The parts are complete: a mode, twelve accents, eight players, a style for
    /// every capture, and hex colors in all of them.
    pub open spec fn is_complete(&self) -> bool {
        &&& self.mode@ == "dark"@ || self.mode@ == "light"@
        &&& self.accents@.len() == 12
        &&& forall|i: int| 0 <= i < 12 ==> is_hex((#[trigger] self.accents@[i])@)
        &&& self.players@.len() == 8
        &&& forall|i: int|
            0 <= i < 8 ==> {
                let player = #[trigger] self.players@[i];
                &&& is_hex(player.cursor@)
                &&& is_hex(player.background@)
                &&& is_hex(player.selection@)
            }
        &&& self.syntax@.len() == capture_names().len()
        &&& forall|i: int|
            0 <= i < self.syntax@.len() ==> {
                let style = #[trigger] self.syntax@[i];
                &&& style.capture@ == capture_names()[i]
                &&& is_hex(style.color@)
            }
    }
}

impl StyleColors {
    /// What is wrong with the first color of the wrong kind.
    pub open spec fn fault(&self) -> Option<Seq<char>> {
        either_fault(self.token_fault(), first_kind_fault(kinds_of(self.fixed_table())))
    }

    /// Every role with its color.
    pub open spec fn role_table(&self, tokens: ThemeTokens) -> Seq<(Seq<char>, Seq<char>)> {
        tokens.statuses.role_table() + without_kinds(self.fixed_table()) + tokens.role_table()
    }
}

/// Whether the object holds the colors of the player.
pub open spec fn is_player(value: Json, player: PlayerColors) -> bool {
    value.object_view() matches Some(fields) && {
        &&& fields.dom() == set!["cursor"@, "background"@, "selection"@]
        &&& text_at(fields, "cursor"@) == Some(player.cursor@)
        &&& text_at(fields, "background"@) == Some(player.background@)
        &&& text_at(fields, "selection"@) == Some(player.selection@)
    }
}

/// Whether the object sets the capture as `style` says.
pub open spec fn is_capture(value: Json, style: SyntaxStyle) -> bool {
    value.object_view() matches Some(fields) && {
        &&& text_at(fields, "color"@) == Some(style.color@)
        &&& fields.contains_key("font_style"@) <==> style.font_style is Some
        &&& style.font_style matches Some(name) ==> text_at(fields, "font_style"@) == Some(name@)
        &&& fields.contains_key("font_weight"@) <==> style.font_weight is Some
        &&& style.font_weight matches Some(weight) ==> fields["font_weight"@] == Json::Number(
            weight as u64,
        )
        &&& forall|key: Seq<char>| #[trigger]
            fields.contains_key(key) ==> key == "color"@ || key == "font_style"@ || key
                == "font_weight"@
    }
}

/// Whether the style holds every role of the table in its color.
pub open spec fn holds_roles(
    style: Map<Seq<char>, Json>,
    table: Seq<(Seq<char>, Seq<char>)>,
) -> bool {
    forall|i: int| 0 <= i < table.len() ==> text_at(
        style,
        (#[trigger] table[i]).0,
    ) == Some(table[i].1)
}

/// Whether the style is the one that the parts make.
pub open spec fn is_style_of(
    style: Map<Seq<char>,
    Json>,
    parts: ThemeParts,
    tokens: ThemeTokens,
) -> bool {
    &&& parts.colors.gives(tokens)
    &&& style.dom() == style_fields()
    &&& holds_roles(style, parts.colors.role_table(tokens))
    &&& text_at(style, "background.appearance"@) == Some("opaque"@)
    &&& list_at(style, "accents"@) matches Some(accents) && accents.len() == parts.accents@.len()
        && forall|i: int|
        0 <= i < accents.len() ==> (#[trigger] accents[i]).text_view() == Some(parts.accents@[i]@)
    &&& list_at(style, "players"@) matches Some(players) && players.len() == parts.players@.len()
        && forall|i: int|
        0 <= i < players.len() ==> is_player(#[trigger] players[i], parts.players@[i])
    &&& object_at(style, "syntax"@) matches Some(syntax) && is_syntax_of(syntax, parts.syntax@)
}

/// Whether the style is the one that the parts make, with some tokens of theirs.
pub open spec fn is_made_style(style: Map<Seq<char>, Json>, parts: ThemeParts) -> bool {
    exists|tokens: ThemeTokens| #[trigger] is_style_of(style, parts, tokens)
}

/// Whether the object sets exactly the captures of `styles`, each as its style
/// says.
pub open spec fn is_syntax_of(syntax: Map<Seq<char>, Json>, styles: Seq<SyntaxStyle>) -> bool {
    &&& syntax.dom() == capture_names().to_set()
    &&& forall|i: int|
        0 <= i < styles.len() ==> is_capture(
            syntax[capture_names()[i]],
            #[trigger] styles[i],
        )
}

/// Whether the document is the theme that the parts make.
pub open spec fn is_theme_of(document: Json, parts: ThemeParts) -> bool {
    document.object_view() matches Some(root) && {
        &&& is_valid_root(root)
        &&& theme_entry(root) matches Some(theme) && {
            &&& theme.dom() == entry_fields()
            &&& text_at(theme, "name"@) == Some(THEME_NAME@)
            &&& text_at(theme, "appearance"@) == Some(parts.mode@)
            &&& object_at(theme, "style"@) matches Some(style) && is_made_style(style, parts)
        }
    }
}

fn text_json(text: &str) -> (value: Json)
    ensures
        value.text_view() == Some(text@),
{
    Json::Text(text.to_owned())
}

fn accent_list(accents: &Vec<String>) -> (list: Vec<Json>)
    ensures
        list@.len() == accents@.len(),
        forall|i: int|
            0 <= i < list@.len() ==> (#[trigger] list@[i]).text_view() == Some(accents@[i]@),
{
    let mut list: Vec<Json> = Vec::new();
    let mut index: usize = 0;
    while index < accents.len()
        invariant
            index <= accents@.len(),
            list@.len() == index,
            forall|i: int|
                0 <= i < list@.len() ==> (#[trigger] list@[i]).text_view() == Some(accents@[i]@),
        decreases accents@.len() - index,
    {
        list.push(text_json(accents[index].as_str()));
        index += 1;
    }
    list
}

/// The three fields of a player have different names.
proof fn lemma_player_fields_differ()
    ensures
        "cursor"@ != "background"@,
        "cursor"@ != "selection"@,
        "background"@ != "selection"@,
{
    reveal_strlit("cursor");
    reveal_strlit("background");
    reveal_strlit("selection");
    assert("cursor"@.len() == 6 && "background"@.len() == 10 && "selection"@.len() == 9);
}

fn player_json(player: &PlayerColors) -> (value: Json)
    ensures
        is_player(value, *player),
{
    proof {
        lemma_player_fields_differ();
    }
    let mut fields: TextMap<Json> = TextMap::new();
    fields.insert("cursor".to_owned(), text_json(player.cursor.as_str()));
    fields.insert("background".to_owned(), text_json(player.background.as_str()));
    fields.insert("selection".to_owned(), text_json(player.selection.as_str()));
    assert(fields@.dom() =~= set!["cursor"@, "background"@, "selection"@]);
    Json::Object(fields)
}

fn player_list(players: &Vec<PlayerColors>) -> (list: Vec<Json>)
    ensures
        list@.len() == players@.len(),
        forall|i: int| 0 <= i < list@.len() ==> is_player(#[trigger] list@[i], players@[i]),
{
    let mut list: Vec<Json> = Vec::new();
    let mut index: usize = 0;
    while index < players.len()
        invariant
            index <= players@.len(),
            list@.len() == index,
            forall|i: int| 0 <= i < list@.len() ==> is_player(#[trigger] list@[i], players@[i]),
        decreases players@.len() - index,
    {
        list.push(player_json(&players[index]));
        index += 1;
    }
    list
}

fn capture_json(style: &SyntaxStyle) -> (value: Json)
    ensures
        is_capture(value, *style),
{
    proof {
        reveal_strlit("color");
        reveal_strlit("font_style");
        reveal_strlit("font_weight");
        assert("color"@.len() == 5 && "font_style"@.len() == 10 && "font_weight"@.len() == 11);
    }
    let mut fields: TextMap<Json> = TextMap::new();
    fields.insert("color".to_owned(), text_json(style.color.as_str()));
    if let Some(name) = style.font_style {
        fields.insert("font_style".to_owned(), text_json(name));
    }
    if let Some(weight) = style.font_weight {
        fields.insert("font_weight".to_owned(), Json::Number(weight as u64));
    }
    Json::Object(fields)
}

fn syntax_fields(styles: &Vec<SyntaxStyle>) -> (fields: TextMap<Json>)
    requires
        styles@.len() == capture_names().len(),
        forall|i: int|
            0 <= i < styles@.len() ==> (#[trigger] styles@[i]).capture@ == capture_names()[i],
    ensures
        is_syntax_of(fields@, styles@),
{
    let mut fields: TextMap<Json> = TextMap::new();
    let mut index: usize = 0;
    while index < styles.len()
        invariant
            styles@.len() == capture_names().len(),
            forall|i: int|
                0 <= i < styles@.len() ==> (#[trigger] styles@[i]).capture@ == capture_names()[i],
            index <= styles@.len(),
            fields@.dom() == capture_names().take(index as int).to_set(),
            forall|i: int|
                0 <= i < index ==> is_capture(fields@[capture_names()[i]], #[trigger] styles@[i]),
        decreases styles@.len() - index,
    {
        let style = &styles[index];
        let ghost before = fields@;
        fields.insert(style.capture.to_owned(), capture_json(style));
        proof {
            let taken = capture_names().take(index as int);
            lemma_set_of_push(taken, capture_names()[index as int]);
            assert(capture_names().take(index + 1) =~= taken.push(capture_names()[index as int]));
            assert forall|i: int| 0 <= i < index + 1 implies is_capture(
                fields@[capture_names()[i]],
                #[trigger] styles@[i],
            ) by {
                if i < index && capture_names()[i] == capture_names()[index as int] {
                    lemma_captures_are_distinct(i, index as int);
                }
            }
        }
        index += 1;
    }
    assert(capture_names().take(index as int) =~= capture_names());
    fields
}

/// A table that names roles from a number on is new to a style without those
/// roles.
proof fn lemma_numbered_is_fresh(
    style: Map<Seq<char>, Seq<char>>,
    table: Seq<(Seq<char>, Seq<char>)>,
    from: int,
)
    requires
        is_numbered(table, from),
        0 <= from,
        from + table.len() <= STYLE_ROLES@.len(),
        forall|name: Seq<char>| #[trigger]
            style.contains_key(name) ==> role_number(name) < from || role_number(name) >= from
                + table.len(),
    ensures
        is_fresh(style, table),
{
    assert forall|i: int| 0 <= i < table.len() implies !style.contains_key(
        (#[trigger] table[i]).0,
    ) by {
        lemma_role_numbers(from + i);
    }
    assert forall|i: int, j: int| 0 <= i < j < table.len() implies (#[trigger] table[i]).0 != (
    #[trigger] table[j]).0 by {
        lemma_role_numbers(from + i);
        lemma_role_numbers(from + j);
    }
}

/// A filled style holds exactly the roles of the table, under their numbers.
proof fn lemma_filled_numbers(table: Seq<(Seq<char>, Seq<char>)>, from: int)
    requires
        is_numbered(table, from),
        0 <= from,
        from + table.len() <= STYLE_ROLES@.len(),
    ensures
        is_fresh(Map::empty(), table),
        forall|name: Seq<char>| #[trigger]
            filled(Map::empty(), table).contains_key(name) ==> from <= role_number(name) < from
                + table.len() && slice_views(STYLE_ROLES@).contains(name),
        forall|i: int|
            0 <= i < table.len() ==> filled(Map::empty(), table).contains_key(
                (#[trigger] table[i]).0,
            ) && filled(Map::empty(), table)[table[i].0] == table[i].1,
{
    let empty = Map::<Seq<char>, Seq<char>>::empty();
    lemma_numbered_is_fresh(empty, table, from);
    lemma_filled(empty, table);
    assert forall|name: Seq<char>| #[trigger] filled(empty, table).contains_key(name) implies from
        <= role_number(name) < from + table.len() && slice_views(STYLE_ROLES@).contains(name) by {
        assert(!empty.contains_key(name));
        let i = choose|i: int| 0 <= i < table.len() && (#[trigger] table[i]).0 == name;
        lemma_role_numbers(from + i);
        assert(slice_views(STYLE_ROLES@)[from + i] == name);
    }
}

/// Filling in two steps fills with both tables.
proof fn lemma_filled_in_a_row(
    style: Map<Seq<char>, Seq<char>>,
    first: Seq<(Seq<char>, Seq<char>)>,
    second: Seq<(Seq<char>, Seq<char>)>,
)
    ensures
        filled(filled(style, first), second) == filled(style, first + second),
    decreases second.len(),
{
    if second.len() == 0 {
        assert(first + second =~= first);
    } else {
        assert((first + second).drop_last() =~= first + second.drop_last());
        lemma_filled_in_a_row(style, first, second.drop_last());
    }
}

/// The roles that are no status roles.
fn fixed_roles(colors: &StyleColors, tokens: &ThemeTokens) -> (result: Result<StyleBuilder>)
    ensures
        result is Ok <==> first_kind_fault(kinds_of(colors.fixed_table())) is None,
        result matches Ok(style) ==> style@ == filled(
            Map::empty(),
            without_kinds(colors.fixed_table()) + tokens.role_table(),
        ) && holds_hex(without_kinds(colors.fixed_table()) + tokens.role_table()),
        result matches Err(error) ==> error.is_invalid(
            first_kind_fault(kinds_of(colors.fixed_table()))->0,
        ),
{
    let ghost fixed = without_kinds(colors.fixed_table());
    let ghost shared = tokens.role_table();
    proof {
        lemma_fixed_names(*colors);
        lemma_token_names(*tokens);
        lemma_filled_numbers(fixed, 42);
    }
    let mut style = StyleBuilder::new();
    style.extend_entries(colors.fixed_entries())?;
    proof {
        lemma_numbered_is_fresh(style@, shared, 147);
        lemma_filled_in_a_row(Map::empty(), fixed, shared);
    }
    style.extend(tokens.zed_roles());
    Ok(style)
}

/// The color roles and the appearance of the window's background.
fn color_fields(colors: &StyleColors, tokens: &ThemeTokens) -> (result: Result<TextMap<Json>>)
    ensures
        result is Ok <==> first_kind_fault(kinds_of(colors.fixed_table())) is None,
        result matches Ok(style) ==> {
            &&& holds_roles(style@, colors.role_table(*tokens))
            &&& holds_hex(colors.role_table(*tokens))
            &&& text_at(style@, "background.appearance"@) == Some("opaque"@)
            &&& forall|name: Seq<char>| #[trigger]
                style@.contains_key(name) <==> name == "background.appearance"@ || slice_views(
                    STYLE_ROLES@,
                ).contains(name)
        },
        result matches Err(error) ==> error.is_invalid(
            first_kind_fault(kinds_of(colors.fixed_table()))->0,
        ),
{
    let ghost status_table = tokens.statuses.role_table();
    let ghost fixed_table = without_kinds(colors.fixed_table()) + tokens.role_table();
    proof {
        lemma_fixed_names(*colors);
        lemma_token_names(*tokens);
        lemma_status_table_names(tokens.statuses);
        lemma_numbered_in_a_row(without_kinds(colors.fixed_table()), tokens.role_table(), 42);
        lemma_filled_numbers(status_table, 0);
        lemma_filled_numbers(fixed_table, 42);
        lemma_other_fields_are_no_roles();
    }
    let fixed = fixed_roles(colors, tokens)?;
    let mut status_roles = StyleBuilder::new();
    status_roles.extend(tokens.statuses.zed_roles());
    let ghost statuses = status_roles@;
    let ghost others = fixed@;
    let mut style: TextMap<Json> = TextMap::new();
    style.insert("background.appearance".to_owned(), text_json("opaque"));
    status_roles.append_to(&mut style);
    let ghost middle = style@;
    assert(middle.contains_key("background.appearance"@));
    assert forall|name: Seq<char>| #[trigger] statuses.contains_key(name) implies middle.contains_key(
        name,
    ) by {
        assert(middle.dom().contains(name));
    }
    fixed.append_to(&mut style);
    proof {
        assert forall|name: Seq<char>| #[trigger] statuses.contains_key(name) implies style@[name].text_view()
            == Some(statuses[name]) by {
            assert(middle.contains_key(name));
        }
        lemma_colored_style(status_table, fixed_table, statuses, others, style@);
        assert(colors.role_table(*tokens) =~= status_table + fixed_table);
    }
    Ok(style)
}

/// A style that was filled with both tables holds exactly the color roles.
proof fn lemma_colored_style(
    status_table: Seq<(Seq<char>, Seq<char>)>,
    fixed_table: Seq<(Seq<char>, Seq<char>)>,
    statuses: Map<Seq<char>, Seq<char>>,
    others: Map<Seq<char>, Seq<char>>,
    style: Map<Seq<char>, Json>,
)
    requires
        is_numbered(status_table, 0),
        status_table.len() == 42,
        is_numbered(fixed_table, 42),
        fixed_table.len() == 143,
        statuses == filled(Map::empty(), status_table),
        others == filled(Map::empty(), fixed_table),
        style.dom() =~= set!["background.appearance"@].union(statuses.dom()).union(others.dom()),
        forall|name: Seq<char>| #[trigger]
            statuses.contains_key(name) ==> style[name].text_view() == Some(statuses[name]),
        forall|name: Seq<char>| #[trigger]
            others.contains_key(name) ==> style[name].text_view() == Some(others[name]),
    ensures
        holds_roles(style, status_table + fixed_table),
        forall|name: Seq<char>| #[trigger]
            style.contains_key(name) <==> name == "background.appearance"@ || slice_views(
                STYLE_ROLES@,
            ).contains(name),
{
    let table = status_table + fixed_table;
    lemma_filled_numbers(status_table, 0);
    lemma_filled_numbers(fixed_table, 42);
    assert forall|i: int| 0 <= i < table.len() implies text_at(style, (#[trigger] table[i]).0)
        == Some(table[i].1) by {
        if i < 42 {
            assert(table[i] == status_table[i]);
            assert(statuses.contains_key(table[i].0));
        } else {
            assert(table[i] == fixed_table[i - 42]);
            assert(others.contains_key(table[i].0));
        }
        assert(style.dom().contains(table[i].0));
    }
    assert forall|name: Seq<char>| #[trigger] style.contains_key(name) <==> name
        == "background.appearance"@ || slice_views(STYLE_ROLES@).contains(name) by {
        if slice_views(STYLE_ROLES@).contains(name) {
            let i = choose|i: int|
                0 <= i < STYLE_ROLES@.len() && slice_views(STYLE_ROLES@)[i] == name;
            if i < 42 {
                assert(status_table[i].0 == name);
                assert(statuses.contains_key(name));
            } else {
                assert(fixed_table[i - 42].0 == name);
                assert(others.contains_key(name));
            }
        }
        if statuses.contains_key(name) || others.contains_key(name) {
            assert(slice_views(STYLE_ROLES@).contains(name));
        }
    }
}

/// Adding the other fields completes a colored style.
proof fn lemma_complete_style(
    table: Seq<(Seq<char>, Seq<char>)>,
    colored: Map<Seq<char>, Json>,
    style: Map<Seq<char>, Json>,
)
    requires
        is_numbered(table, 0),
        table.len() == STYLE_ROLES@.len(),
        holds_roles(colored, table),
        text_at(colored, "background.appearance"@) == Some("opaque"@),
        forall|name: Seq<char>| #[trigger]
            colored.contains_key(name) <==> name == "background.appearance"@ || slice_views(
                STYLE_ROLES@,
            ).contains(name),
        style.dom() =~= colored.dom().insert("accents"@).insert("players"@).insert("syntax"@),
        forall|name: Seq<char>|
            name != "accents"@ && name != "players"@ && name != "syntax"@ ==> #[trigger] style[name]
                == colored[name],
    ensures
        style.dom() == style_fields(),
        holds_roles(style, table),
        text_at(style, "background.appearance"@) == Some("opaque"@),
{
    lemma_other_fields_are_no_roles();
    assert forall|i: int| 0 <= i < table.len() implies text_at(style, (#[trigger] table[i]).0)
        == Some(table[i].1) by {
        lemma_role_numbers(i);
        assert(text_at(colored, table[i].0) == Some(table[i].1));
        assert(style[table[i].0] == colored[table[i].0]);
        assert(style.dom().contains(table[i].0));
    }
    assert(style["background.appearance"@] == colored["background.appearance"@]);
    assert(style.dom().contains("background.appearance"@));
    assert forall|name: Seq<char>| style.dom().contains(name) == is_style_field(name) by {
        lemma_roles_are_the_manifest(name);
        assert(colored.dom().contains(name) == colored.contains_key(name));
    }
    assert(style.dom() =~= style_fields());
}

/// The style that complete parts make is a valid style.
pub proof fn lemma_style_is_valid(
    style: Map<Seq<char>, Json>,
    parts: ThemeParts,
    tokens: ThemeTokens,
)
    requires
        parts.is_complete(),
        is_style_of(style, parts, tokens),
        holds_hex(parts.colors.role_table(tokens)),
    ensures
        is_valid_style(style),
{
    let table = parts.colors.role_table(tokens);
    lemma_role_table_names(parts.colors, tokens);
    assert forall|name: Seq<char>| is_fixed_field(name) || is_status_field(name) implies role_fault(
        style,
        name,
    ) is None by {
        lemma_roles_are_the_manifest(name);
        let i = choose|i: int|
            0 <= i < STYLE_ROLES@.len() && slice_views(STYLE_ROLES@)[i] == name;
        assert(table[i].0 == name);
    }
    let accents = list_at(style, "accents"@)->0;
    assert forall|i: int| 0 <= i < 12 implies #[trigger] accent_fault(accents, i) is None by {
        assert(accents[i].text_view() == Some(parts.accents@[i]@));
    }
    let players = list_at(style, "players"@)->0;
    assert forall|i: int| 0 <= i < 8 implies #[trigger] player_fault(players, i) is None by {
        assert(is_player(players[i], parts.players@[i]));
        lemma_player_fields_differ();
        let fields = players[i].object_view()->0;
        assert(fields.dom() =~= Set::empty().insert("cursor"@).insert("background"@).insert(
            "selection"@,
        ));
    }
    let syntax = object_at(style, "syntax"@)->0;
    assert forall|name: Seq<char>| #[trigger] syntax.dom().contains(name) implies capture_fault(
        syntax,
        name,
    ) is None by {
        let i = choose|i: int| 0 <= i < capture_names().len() && capture_names()[i] == name;
        assert(is_capture(syntax[capture_names()[i]], parts.syntax@[i]));
    }
}

/// The style that the parts make.
fn assemble_style(parts: &ThemeParts) -> (result: Result<TextMap<Json>>)
    requires
        parts.is_complete(),
    ensures
        result is Ok <==> parts.colors.fault() is None,
        result matches Ok(style) ==> is_made_style(style@, *parts) && is_valid_style(style@),
        result matches Err(error) ==> error.is_invalid(parts.colors.fault()->0),
{
    let tokens = parts.colors.tokens()?;
    let mut style = color_fields(&parts.colors, &tokens)?;
    let ghost colored = style@;
    let ghost table = parts.colors.role_table(tokens);
    style.insert("accents".to_owned(), Json::List(accent_list(&parts.accents)));
    style.insert("players".to_owned(), Json::List(player_list(&parts.players)));
    style.insert("syntax".to_owned(), Json::Object(syntax_fields(&parts.syntax)));
    proof {
        lemma_role_table_names(parts.colors, tokens);
        lemma_other_fields_are_no_roles();
        lemma_complete_style(table, colored, style@);
        assert(is_style_of(style@, *parts, tokens));
        assert(is_made_style(style@, *parts));
        lemma_style_is_valid(style@, *parts, tokens);
    }
    Ok(style)
}

/// The roles of a style are numbered in the order in which they are generated.
pub(crate) proof fn lemma_role_table_names(colors: StyleColors, tokens: ThemeTokens)
    ensures
        is_numbered(colors.role_table(tokens), 0),
        colors.role_table(tokens).len() == STYLE_ROLES@.len(),
{
    lemma_fixed_names(colors);
    lemma_token_names(tokens);
    lemma_status_table_names(tokens.statuses);
    lemma_numbered_in_a_row(tokens.statuses.role_table(), without_kinds(colors.fixed_table()), 0);
    lemma_numbered_in_a_row(
        tokens.statuses.role_table() + without_kinds(colors.fixed_table()),
        tokens.role_table(),
        0,
    );
}

/// Assembles the theme document. A color of the wrong kind is refused; the
/// document that complete parts make is always valid.
pub fn assemble_theme(parts: &ThemeParts) -> (result: Result<Json>)
    requires
        parts.is_complete(),
    ensures
        result is Ok <==> parts.colors.fault() is None,
        result matches Ok(document) ==> is_theme_of(document, *parts),
        result matches Ok(document) ==> is_valid_theme(document),
        result matches Err(error) ==> error.is_invalid(parts.colors.fault()->0),
{
    let style = assemble_style(parts)?;
    proof {
        reveal_strlit("appearance");
        reveal_strlit("name");
        reveal_strlit("style");
        reveal_strlit("$schema");
        reveal_strlit("author");
        reveal_strlit("themes");
        assert("appearance"@.len() == 10 && "name"@.len() == 4 && "style"@.len() == 5
            && "$schema"@.len() == 7 && "author"@[0] == 'a' && "themes"@[0] == 't'
            && "author"@.len() == 6 && "themes"@.len() == 6);
    }
    let mut theme: TextMap<Json> = TextMap::new();
    theme.insert("name".to_owned(), text_json(THEME_NAME));
    theme.insert("appearance".to_owned(), text_json(parts.mode.as_str()));
    theme.insert("style".to_owned(), Json::Object(style));
    assert(theme@.dom() =~= entry_fields());
    let mut themes: Vec<Json> = Vec::new();
    themes.push(Json::Object(theme));
    let mut root: TextMap<Json> = TextMap::new();
    root.insert("$schema".to_owned(), text_json(SCHEMA_URL));
    root.insert("name".to_owned(), text_json(THEME_NAME));
    root.insert("author".to_owned(), text_json("APS"));
    root.insert("themes".to_owned(), Json::List(themes));
    assert(root@.dom() =~= root_fields());
    assert(theme_entry(root@) == Some(theme@));
    Ok(Json::Object(root))
}

} // verus!
