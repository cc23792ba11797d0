//! Semantic colors that several roles of the theme share.
//!
//! The generator solves these colors once. Roles that must look alike take their
//! color from the same token, so an alias holds by construction.

use crate::color::{hex_color, invalid_hex_message, is_hex, parse_hex, with_alpha, Rgba};
use crate::text::slice_views;
use crate::{Error, Result};
use vstd::prelude::*;

verus! {

/// Whether `text` is a hex color without transparency.
pub open spec fn is_opaque_color(text: Seq<char>) -> bool {
    is_hex(text) && hex_color(text).a == 255
}

/// Whether `text` is a hex color with transparency.
pub open spec fn is_overlay_color(text: Seq<char>) -> bool {
    is_hex(text) && hex_color(text).a < 255
}

/// What a token of the wrong kind is told.
pub open spec fn opaque_fault(value: Seq<char>) -> Seq<char> {
    if is_hex(value) {
        "opaque token received translucent color "@ + value
    } else {
        invalid_hex_message(value)
    }
}

/// What a token of the wrong kind is told.
pub open spec fn overlay_fault(value: Seq<char>) -> Seq<char> {
    if is_hex(value) {
        "overlay token received opaque color "@ + value
    } else {
        invalid_hex_message(value)
    }
}

/// A color without transparency.
#[derive(Debug)]
pub struct OpaqueColor {
    value: String,
}

/// A color with transparency.
#[derive(Debug)]
pub struct OverlayColor {
    value: String,
}

impl View for OpaqueColor {
    type V = Seq<char>;

    closed spec fn view(&self) -> Seq<char> {
        self.value@
    }
}

impl View for OverlayColor {
    type V = Seq<char>;

    closed spec fn view(&self) -> Seq<char> {
        self.value@
    }
}

impl Clone for OpaqueColor {
    fn clone(&self) -> (color: Self)
        ensures
            color@ == self@,
    {
        proof {
            use_type_invariant(self);
        }
        OpaqueColor { value: self.value.clone() }
    }
}

impl Clone for OverlayColor {
    fn clone(&self) -> (color: Self)
        ensures
            color@ == self@,
    {
        proof {
            use_type_invariant(self);
        }
        OverlayColor { value: self.value.clone() }
    }
}

impl OpaqueColor {
    #[verifier::type_invariant]
    closed spec fn wf(&self) -> bool {
        is_opaque_color(self.value@)
    }

    /// Accepts a hex color without transparency.
    pub fn new(value: String) -> (result: Result<Self>)
        ensures
            result is Ok <==> is_opaque_color(value@),
            result matches Ok(color) ==> color@ == value@,
            result matches Err(error) ==> error.is_invalid(opaque_fault(value@)),
    {
        let color = parse_hex(value.as_str())?;
        if color.a < 255 {
            let mut message = "opaque token received translucent color ".to_owned();
            message.append(value.as_str());
            return Err(Error::invalid(message));
        }
        Ok(OpaqueColor { value })
    }

    pub fn to_hex(&self) -> (text: String)
        ensures
            text@ == self@,
            is_opaque_color(text@),
    {
        proof {
            use_type_invariant(self);
        }
        self.value.clone()
    }

    /// The same channels with the alpha byte `alpha`.
    pub fn with_alpha(&self, alpha: u8) -> (result: Result<OverlayColor>)
        ensures
            result is Ok <==> alpha < 255,
            result matches Ok(color) ==> is_hex(color@) && hex_color(color@).rgb() == hex_color(
                self@,
            ).rgb() && hex_color(color@).a == alpha,
            result matches Ok(color) ==> color@ == (
                Rgba { a: alpha, ..hex_color(self@) }
            ).hex_view(),
            result matches Err(error) ==> error.is_invalid(
                overlay_fault((Rgba { a: alpha, ..hex_color(self@) }).hex_view()),
            ),
    {
        proof {
            use_type_invariant(self);
            crate::color::lemma_hex_round_trip(Rgba { a: alpha, ..hex_color(self@) });
        }
        let projected = with_alpha(self.value.as_str(), alpha)?;
        OverlayColor::new(projected)
    }
}

impl OverlayColor {
    #[verifier::type_invariant]
    closed spec fn wf(&self) -> bool {
        is_overlay_color(self.value@)
    }

    /// Accepts a hex color with transparency.
    pub fn new(value: String) -> (result: Result<Self>)
        ensures
            result is Ok <==> is_overlay_color(value@),
            result matches Ok(color) ==> color@ == value@,
            result matches Err(error) ==> error.is_invalid(overlay_fault(value@)),
    {
        let color = parse_hex(value.as_str())?;
        if color.a == 255 {
            let mut message = "overlay token received opaque color ".to_owned();
            message.append(value.as_str());
            return Err(Error::invalid(message));
        }
        Ok(OverlayColor { value })
    }

    /// The color that nothing is seen of.
    pub fn transparent() -> (color: Self)
        ensures
            color@ == "#00000000"@,
            is_overlay_color(color@),
    {
        let value = "#00000000".to_owned();
        proof {
            reveal_strlit("#00000000");
            assert(is_hex(value@));
        }
        OverlayColor { value }
    }

    pub fn hex(&self) -> (text: &str)
        ensures
            text@ == self@,
    {
        self.value.as_str()
    }

    pub fn to_hex(&self) -> (text: String)
        ensures
            text@ == self@,
            is_overlay_color(text@),
    {
        proof {
            use_type_invariant(self);
        }
        self.value.clone()
    }
}

#[derive(Clone, Debug)]
pub struct SurfaceTokens {
    pub editor_canvas: OpaqueColor,
    pub app_frame: OpaqueColor,
    pub elevated: OpaqueColor,
    pub secondary: OpaqueColor,
    pub inactive_control: OpaqueColor,
    pub editor_highlighted_line: OverlayColor,
}

#[derive(Clone, Debug)]
pub struct ContentTokens {
    pub primary: OpaqueColor,
    pub muted: OpaqueColor,
    pub placeholder: OpaqueColor,
    pub disabled: OpaqueColor,
    pub icon_muted: OpaqueColor,
    pub icon_placeholder: OpaqueColor,
    pub icon_disabled: OpaqueColor,
    pub accent: OpaqueColor,
    pub editor_primary: OpaqueColor,
}

#[derive(Clone, Debug)]
pub struct InteractionTokens {
    pub element_hover: OverlayColor,
    pub element_active: OverlayColor,
    pub element_selected: OverlayColor,
    pub ghost_hover: OverlayColor,
    pub ghost_active: OverlayColor,
    pub ghost_selected: OverlayColor,
}

#[derive(Clone, Debug)]
pub struct StatusChannel {
    pub foreground: OpaqueColor,
    pub background: OpaqueColor,
    pub border: OpaqueColor,
}

#[derive(Clone, Debug)]
pub struct StatusTokens {
    pub positive: StatusChannel,
    pub negative: StatusChannel,
    pub warning: StatusChannel,
    pub informational: StatusChannel,
    pub predictive: StatusChannel,
    pub hint: StatusChannel,
    pub hidden: StatusChannel,
    pub ignored: StatusChannel,
    pub unreachable: StatusChannel,
}

#[derive(Clone, Debug)]
pub struct DerivedTokens {
    pub editor_active_line: OverlayColor,
    pub wrap_guide: OverlayColor,
    pub active_wrap_guide: OverlayColor,
    pub document_read: OverlayColor,
}

#[derive(Clone, Debug)]
pub struct ThemeTokens {
    pub surfaces: SurfaceTokens,
    pub content: ContentTokens,
    pub interactions: InteractionTokens,
    pub statuses: StatusTokens,
    pub derived: DerivedTokens,
}

/// A role of the theme with its color.
#[derive(Debug)]
pub struct RoleColor {
    role: String,
    value: String,
}

impl View for RoleColor {
    type V = (Seq<char>, Seq<char>);

    closed spec fn view(&self) -> (Seq<char>, Seq<char>) {
        (self.role@, self.value@)
    }
}

/// The roles and colors that `roles` hold.
pub open spec fn role_views(roles: Seq<RoleColor>) -> Seq<(Seq<char>, Seq<char>)> {
    roles.map_values(|role: RoleColor| role@)
}

/// Each of `names` with the same color.
pub open spec fn assigned(names: Seq<Seq<char>>, color: Seq<char>) -> Seq<
    (Seq<char>, Seq<char>),
> {
    names.map_values(|name: Seq<char>| (name, color))
}

/// Whether every color of the table is a hex color.
pub open spec fn holds_hex(table: Seq<(Seq<char>, Seq<char>)>) -> bool {
    forall|i: int| 0 <= i < table.len() ==> is_hex((#[trigger] table[i]).1)
}

impl Clone for RoleColor {
    fn clone(&self) -> (color: Self)
        ensures
            color@ == self@,
    {
        RoleColor { role: self.role.clone(), value: self.value.clone() }
    }
}

impl RoleColor {
    pub(crate) fn new(role: &str, value: String) -> (color: Self)
        ensures
            color@ == (role@, value@),
    {
        RoleColor { role: role.to_owned(), value }
    }

    fn opaque(role: &str, color: &OpaqueColor) -> (role_color: Self)
        ensures
            role_color@ == (role@, color@),
    {
        RoleColor::new(role, color.to_hex())
    }

    fn overlay(role: &str, color: &OverlayColor) -> (role_color: Self)
        ensures
            role_color@ == (role@, color@),
    {
        RoleColor::new(role, color.to_hex())
    }

    /// A role that must have a color without transparency.
    pub fn opaque_value(role: &str, value: String) -> (result: Result<Self>)
        ensures
            result is Ok <==> is_opaque_color(value@),
            result matches Ok(color) ==> color@ == (role@, value@),
            result matches Err(error) ==> error.is_invalid(opaque_fault(value@)),
    {
        let color = OpaqueColor::new(value)?;
        Ok(RoleColor::new(role, color.to_hex()))
    }

    /// A role that must have a color with transparency.
    pub fn overlay_value(role: &str, value: String) -> (result: Result<Self>)
        ensures
            result is Ok <==> is_overlay_color(value@),
            result matches Ok(color) ==> color@ == (role@, value@),
            result matches Err(error) ==> error.is_invalid(overlay_fault(value@)),
    {
        let color = OverlayColor::new(value)?;
        Ok(RoleColor::new(role, color.to_hex()))
    }

    pub fn into_parts(self) -> (parts: (String, String))
        ensures
            (parts.0@, parts.1@) == self@,
    {
        (self.role, self.value)
    }
}

fn push_opaque(roles: &mut Vec<RoleColor>, names: &[&'static str], color: &OpaqueColor)
    ensures
        is_hex(color@),
        role_views(final(roles)@) == role_views(old(roles)@) + assigned(
            slice_views(names@),
            color@,
        ),
{
    proof {
        use_type_invariant(color);
    }
    let mut index: usize = 0;
    while index < names.len()
        invariant
            index <= names@.len(),
            role_views(roles@) == role_views(old(roles)@) + assigned(
                slice_views(names@).take(index as int),
                color@,
            ),
        decreases names@.len() - index,
    {
        let ghost before = roles@;
        roles.push(RoleColor::opaque(names[index], color));
        index += 1;
        assert(role_views(roles@) =~= role_views(before).push((names@[index - 1]@, color@)));
        assert(assigned(slice_views(names@).take(index as int), color@) =~= assigned(
            slice_views(names@).take(index - 1),
            color@,
        ).push((names@[index - 1]@, color@)));
    }
    assert(slice_views(names@).take(index as int) =~= slice_views(names@));
}

fn push_overlay(roles: &mut Vec<RoleColor>, names: &[&'static str], color: &OverlayColor)
    ensures
        is_hex(color@),
        role_views(final(roles)@) == role_views(old(roles)@) + assigned(
            slice_views(names@),
            color@,
        ),
{
    proof {
        use_type_invariant(color);
    }
    let mut index: usize = 0;
    while index < names.len()
        invariant
            index <= names@.len(),
            role_views(roles@) == role_views(old(roles)@) + assigned(
                slice_views(names@).take(index as int),
                color@,
            ),
        decreases names@.len() - index,
    {
        let ghost before = roles@;
        roles.push(RoleColor::overlay(names[index], color));
        index += 1;
        assert(role_views(roles@) =~= role_views(before).push((names@[index - 1]@, color@)));
        assert(assigned(slice_views(names@).take(index as int), color@) =~= assigned(
            slice_views(names@).take(index - 1),
            color@,
        ).push((names@[index - 1]@, color@)));
    }
    assert(slice_views(names@).take(index as int) =~= slice_views(names@));
}

impl ThemeTokens {
    /// The roles of surfaces.
    pub open spec fn surface_table(&self) -> Seq<(Seq<char>, Seq<char>)> {
        assigned(
            seq![
                "editor.background"@,
                "editor.gutter.background"@,
                "tab.active_background"@,
                "toolbar.background"@,
            ],
            self.surfaces.editor_canvas@,
        )
            + assigned(
                seq!["background"@, "status_bar.background"@, "title_bar.background"@],
                self.surfaces.app_frame@,
            )
            + assigned(seq!["elevated_surface.background"@], self.surfaces.elevated@)
            + assigned(seq!["surface.background"@], self.surfaces.secondary@)
            + assigned(
                seq![
                    "element.disabled"@,
                    "ghost_element.disabled"@,
                    "title_bar.inactive_background"@,
                ],
                self.surfaces.inactive_control@,
            )
            + assigned(
                seq!["editor.highlighted_line.background"@],
                self.surfaces.editor_highlighted_line@,
            )
    }

    fn push_surface_roles(&self, roles: &mut Vec<RoleColor>)
        ensures
            role_views(final(roles)@) == role_views(old(roles)@) + self.surface_table(),
            holds_hex(self.surface_table()),
    {
        push_opaque(
            roles,
            &["editor.background", "editor.gutter.background", "tab.active_background", "toolbar.background"],
            &self.surfaces.editor_canvas,
        );
        push_opaque(
            roles,
            &["background", "status_bar.background", "title_bar.background"],
            &self.surfaces.app_frame,
        );
        push_opaque(roles, &["elevated_surface.background"], &self.surfaces.elevated);
        push_opaque(roles, &["surface.background"], &self.surfaces.secondary);
        push_opaque(
            roles,
            &["element.disabled", "ghost_element.disabled", "title_bar.inactive_background"],
            &self.surfaces.inactive_control,
        );
        push_overlay(
            roles,
            &["editor.highlighted_line.background"],
            &self.surfaces.editor_highlighted_line,
        );
        assert(role_views(roles@) =~= role_views(old(roles)@) + self.surface_table());
    }

    /// The roles of text and icons.
    pub open spec fn content_table(&self) -> Seq<(Seq<char>, Seq<char>)> {
        assigned(seq!["text"@, "icon"@], self.content.primary@)
            + assigned(seq!["text.muted"@], self.content.muted@)
            + assigned(seq!["text.placeholder"@], self.content.placeholder@)
            + assigned(seq!["text.disabled"@], self.content.disabled@)
            + assigned(seq!["icon.muted"@], self.content.icon_muted@)
            + assigned(seq!["icon.placeholder"@], self.content.icon_placeholder@)
            + assigned(seq!["icon.disabled"@], self.content.icon_disabled@)
            + assigned(
                seq!["text.accent"@, "icon.accent"@, "link_text.hover"@],
                self.content.accent@,
            )
            + assigned(seq!["editor.foreground"@], self.content.editor_primary@)
    }

    fn push_content_roles(&self, roles: &mut Vec<RoleColor>)
        ensures
            role_views(final(roles)@) == role_views(old(roles)@) + self.content_table(),
            holds_hex(self.content_table()),
    {
        push_opaque(roles, &["text", "icon"], &self.content.primary);
        push_opaque(roles, &["text.muted"], &self.content.muted);
        push_opaque(roles, &["text.placeholder"], &self.content.placeholder);
        push_opaque(roles, &["text.disabled"], &self.content.disabled);
        push_opaque(roles, &["icon.muted"], &self.content.icon_muted);
        push_opaque(roles, &["icon.placeholder"], &self.content.icon_placeholder);
        push_opaque(roles, &["icon.disabled"], &self.content.icon_disabled);
        push_opaque(
            roles,
            &["text.accent", "icon.accent", "link_text.hover"],
            &self.content.accent,
        );
        push_opaque(roles, &["editor.foreground"], &self.content.editor_primary);
        assert(role_views(roles@) =~= role_views(old(roles)@) + self.content_table());
    }

    /// The roles of interaction states.
    pub open spec fn interaction_table(&self) -> Seq<(Seq<char>, Seq<char>)> {
        assigned(seq!["element.hover"@], self.interactions.element_hover@)
            + assigned(seq!["element.active"@], self.interactions.element_active@)
            + assigned(seq!["element.selected"@], self.interactions.element_selected@)
            + assigned(seq!["ghost_element.hover"@], self.interactions.ghost_hover@)
            + assigned(seq!["ghost_element.active"@], self.interactions.ghost_active@)
            + assigned(seq!["ghost_element.selected"@], self.interactions.ghost_selected@)
            + assigned(
                seq![
                    "border.transparent"@,
                    "ghost_element.background"@,
                    "scrollbar.track.background"@,
                ],
                "#00000000"@,
            )
    }

    fn push_interaction_roles(&self, roles: &mut Vec<RoleColor>)
        ensures
            role_views(final(roles)@) == role_views(old(roles)@) + self.interaction_table(),
            holds_hex(self.interaction_table()),
    {
        push_overlay(roles, &["element.hover"], &self.interactions.element_hover);
        push_overlay(roles, &["element.active"], &self.interactions.element_active);
        push_overlay(roles, &["element.selected"], &self.interactions.element_selected);
        push_overlay(roles, &["ghost_element.hover"], &self.interactions.ghost_hover);
        push_overlay(roles, &["ghost_element.active"], &self.interactions.ghost_active);
        push_overlay(roles, &["ghost_element.selected"], &self.interactions.ghost_selected);
        push_overlay(
            roles,
            &["border.transparent", "ghost_element.background", "scrollbar.track.background"],
            &OverlayColor::transparent(),
        );
        assert(role_views(roles@) =~= role_views(old(roles)@) + self.interaction_table());
    }

    /// The roles of editor lines, guides and highlights.
    pub open spec fn derived_table(&self) -> Seq<(Seq<char>, Seq<char>)> {
        assigned(seq!["editor.active_line.background"@], self.derived.editor_active_line@)
            + assigned(seq!["editor.wrap_guide"@], self.derived.wrap_guide@)
            + assigned(seq!["editor.active_wrap_guide"@], self.derived.active_wrap_guide@)
            + assigned(
                seq!["editor.document_highlight.read_background"@],
                self.derived.document_read@,
            )
    }

    fn push_derived_roles(&self, roles: &mut Vec<RoleColor>)
        ensures
            role_views(final(roles)@) == role_views(old(roles)@) + self.derived_table(),
            holds_hex(self.derived_table()),
    {
        push_overlay(roles, &["editor.active_line.background"], &self.derived.editor_active_line);
        push_overlay(roles, &["editor.wrap_guide"], &self.derived.wrap_guide);
        push_overlay(roles, &["editor.active_wrap_guide"], &self.derived.active_wrap_guide);
        push_overlay(
            roles,
            &["editor.document_highlight.read_background"],
            &self.derived.document_read,
        );
        assert(role_views(roles@) =~= role_views(old(roles)@) + self.derived_table());
    }

    /// The roles that take their color from a token, statuses aside.
    #[verifier::opaque]
    pub open spec fn role_table(&self) -> Seq<(Seq<char>, Seq<char>)> {
        self.surface_table() + self.content_table() + self.interaction_table()
            + self.derived_table()
    }

    /// The roles that take their color from a token, statuses aside.
    pub fn zed_roles(&self) -> (roles: Vec<RoleColor>)
        ensures
            role_views(roles@) == self.role_table(),
            holds_hex(self.role_table()),
    {
        let mut roles: Vec<RoleColor> = Vec::new();
        self.push_surface_roles(&mut roles);
        self.push_content_roles(&mut roles);
        self.push_interaction_roles(&mut roles);
        self.push_derived_roles(&mut roles);
        reveal(ThemeTokens::role_table);
        assert(role_views(roles@) =~= self.role_table());
        roles
    }
}

impl StatusChannel {
    /// The three roles of the status `name`.
    pub open spec fn roles_of(&self, name: Seq<char>) -> Seq<(Seq<char>, Seq<char>)> {
        seq![
            (name, self.foreground@),
            (name + ".background"@, self.background@),
            (name + ".border"@, self.border@),
        ]
    }

    fn push_roles(&self, roles: &mut Vec<RoleColor>, name: &str)
        ensures
            role_views(final(roles)@) == role_views(old(roles)@) + self.roles_of(name@),
            holds_hex(self.roles_of(name@)),
    {
        proof {
            use_type_invariant(&self.foreground);
            use_type_invariant(&self.background);
            use_type_invariant(&self.border);
        }
        let mut background = name.to_owned();
        background.append(".background");
        let mut border = name.to_owned();
        border.append(".border");
        roles.push(RoleColor::opaque(name, &self.foreground));
        roles.push(RoleColor::opaque(background.as_str(), &self.background));
        roles.push(RoleColor::opaque(border.as_str(), &self.border));
        assert(role_views(roles@) =~= role_views(old(roles)@) + self.roles_of(name@));
    }
}

impl StatusTokens {
    /// The roles of every status.
    #[verifier::opaque]
    pub open spec fn role_table(&self) -> Seq<(Seq<char>, Seq<char>)> {
        self.positive.roles_of("created"@) + self.positive.roles_of("success"@) + self.negative.roles_of("deleted"@) + self.negative.roles_of("error"@) + self.warning.roles_of("conflict"@) + self.warning.roles_of("modified"@) + self.warning.roles_of("warning"@) + self.informational.roles_of("info"@) + self.informational.roles_of("renamed"@) + self.predictive.roles_of("predictive"@) + self.hint.roles_of("hint"@) + self.hidden.roles_of("hidden"@) + self.ignored.roles_of("ignored"@) + self.unreachable.roles_of("unreachable"@)
    }

    /// The roles of every status.
    pub fn zed_roles(&self) -> (roles: Vec<RoleColor>)
        ensures
            role_views(roles@) == self.role_table(),
            holds_hex(self.role_table()),
    {
        reveal(StatusTokens::role_table);
        let mut roles: Vec<RoleColor> = Vec::new();
        self.positive.push_roles(&mut roles, "created");
        self.positive.push_roles(&mut roles, "success");
        self.negative.push_roles(&mut roles, "deleted");
        self.negative.push_roles(&mut roles, "error");
        self.warning.push_roles(&mut roles, "conflict");
        self.warning.push_roles(&mut roles, "modified");
        self.warning.push_roles(&mut roles, "warning");
        self.informational.push_roles(&mut roles, "info");
        self.informational.push_roles(&mut roles, "renamed");
        self.predictive.push_roles(&mut roles, "predictive");
        self.hint.push_roles(&mut roles, "hint");
        self.hidden.push_roles(&mut roles, "hidden");
        self.ignored.push_roles(&mut roles, "ignored");
        self.unreachable.push_roles(&mut roles, "unreachable");
        roles
    }
}

} // verus!
