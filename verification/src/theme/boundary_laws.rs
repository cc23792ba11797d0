//! What boundaries meet, and which roles they fill.

use crate::color::laws::lemma_layers_follow_each_other;
use crate::color::{hex_color, is_hex, lemma_hex_round_trip, overlaid, Rgba};
use crate::json::{text_at, Json};
use crate::map::TextMap;
use crate::theme::boundaries::{
    faded_view, filled_with, BoundaryColors, BoundaryScenes, ContactView, ControlKind,
    SCENE_ROLES,
};
use crate::theme::boundary_groups::{
    boundary_table, normal_view, request_view, variant_view, Emphasis, GroupView, Purpose,
    Strength,
};
use crate::Error;
use vstd::prelude::*;

verus! {

/// The colors that boundaries meet are those of the roles that the editor paints there.
pub proof fn lemma_boundary_colors_are_read(style: TextMap<Json>, read: BoundaryColors)
    requires
        call_ensures(BoundaryColors::read, (&style,), Ok::<BoundaryColors, Error>(read)),
    ensures
        text_at(style@, "editor.background"@) == Some(read.canvas@),
        text_at(style@, "panel.background"@) == Some(read.panel@),
        text_at(style@, "elevated_surface.background"@) == Some(read.elevated@),
        text_at(style@, "tab_bar.background"@) == Some(read.chrome@),
        text_at(style@, "tab.inactive_background"@) == Some(read.inactive@),
        text_at(style@, "element.disabled"@) == Some(read.disabled@),
        text_at(style@, "text"@) == Some(read.text@),
        text_at(style@, "ghost_element.background"@) == Some(read.ghost_fill@),
        text_at(style@, "element.background"@) == Some(read.element_fill@),
        text_at(style@, "ghost_element.hover"@) == Some(read.ghost_hover@),
        text_at(style@, "ghost_element.active"@) == Some(read.ghost_active@),
        text_at(style@, "ghost_element.selected"@) == Some(read.ghost_selected@),
        text_at(style@, "element.active"@) == Some(read.element_active@),
        text_at(style@, "info.background"@) == Some(read.selected@),
        text_at(style@, "element.hover"@) == Some(read.element_hover@),
        text_at(style@, "success"@) == Some(read.success@),
        text_at(style@, "warning.background"@) == Some(read.warning@),
        text_at(style@, "error"@) == Some(read.error@),
        text_at(style@, "title_bar.background"@) == Some(read.title_bar@),
        text_at(style@, "border.focused"@) == Some(read.focused@),
        text_at(style@, "scrollbar.track.background"@) == Some(read.track@),
        text_at(style@, "editor.active_line.background"@) == Some(read.active_line@),
        text_at(style@, "scrollbar.thumb.background"@) == Some(read.thumb@),
        text_at(style@, "scrollbar.thumb.hover_background"@) == Some(read.thumb_hover@),
        text_at(style@, "scrollbar.thumb.active_background"@) == Some(read.thumb_active@),
        text_at(style@, "minimap.thumb.background"@) == Some(read.minimap@),
        text_at(style@, "minimap.thumb.hover_background"@) == Some(read.minimap_hover@),
        text_at(style@, "minimap.thumb.active_background"@) == Some(read.minimap_active@),
{
    let colors = read.colors();
    assert(SCENE_ROLES@[0]@ == "editor.background"@ && colors[0] == read.canvas@);
    assert(SCENE_ROLES@[1]@ == "panel.background"@ && colors[1] == read.panel@);
    assert(SCENE_ROLES@[2]@ == "elevated_surface.background"@ && colors[2] == read.elevated@);
    assert(SCENE_ROLES@[3]@ == "tab_bar.background"@ && colors[3] == read.chrome@);
    assert(SCENE_ROLES@[4]@ == "tab.inactive_background"@ && colors[4] == read.inactive@);
    assert(SCENE_ROLES@[5]@ == "element.disabled"@ && colors[5] == read.disabled@);
    assert(SCENE_ROLES@[6]@ == "text"@ && colors[6] == read.text@);
    assert(SCENE_ROLES@[7]@ == "ghost_element.background"@ && colors[7] == read.ghost_fill@);
    assert(SCENE_ROLES@[8]@ == "element.background"@ && colors[8] == read.element_fill@);
    assert(SCENE_ROLES@[9]@ == "ghost_element.hover"@ && colors[9] == read.ghost_hover@);
    assert(SCENE_ROLES@[10]@ == "ghost_element.active"@ && colors[10] == read.ghost_active@);
    assert(SCENE_ROLES@[11]@ == "ghost_element.selected"@ && colors[11] == read.ghost_selected@);
    assert(SCENE_ROLES@[12]@ == "element.active"@ && colors[12] == read.element_active@);
    assert(SCENE_ROLES@[13]@ == "info.background"@ && colors[13] == read.selected@);
    assert(SCENE_ROLES@[14]@ == "element.hover"@ && colors[14] == read.element_hover@);
    assert(SCENE_ROLES@[15]@ == "success"@ && colors[15] == read.success@);
    assert(SCENE_ROLES@[16]@ == "warning.background"@ && colors[16] == read.warning@);
    assert(SCENE_ROLES@[17]@ == "error"@ && colors[17] == read.error@);
    assert(SCENE_ROLES@[18]@ == "title_bar.background"@ && colors[18] == read.title_bar@);
    assert(SCENE_ROLES@[19]@ == "border.focused"@ && colors[19] == read.focused@);
    assert(SCENE_ROLES@[20]@ == "scrollbar.track.background"@ && colors[20] == read.track@);
    assert(SCENE_ROLES@[21]@ == "editor.active_line.background"@ && colors[21] == read.active_line@);
    assert(SCENE_ROLES@[22]@ == "scrollbar.thumb.background"@ && colors[22] == read.thumb@);
    assert(SCENE_ROLES@[23]@ == "scrollbar.thumb.hover_background"@ && colors[23] == read.thumb_hover@);
    assert(SCENE_ROLES@[24]@ == "scrollbar.thumb.active_background"@ && colors[24] == read.thumb_active@);
    assert(SCENE_ROLES@[25]@ == "minimap.thumb.background"@ && colors[25] == read.minimap@);
    assert(SCENE_ROLES@[26]@ == "minimap.thumb.hover_background"@ && colors[26] == read.minimap_hover@);
    assert(SCENE_ROLES@[27]@ == "minimap.thumb.active_background"@ && colors[27] == read.minimap_active@);
}

/// Whether the role has the color in the table.
pub open spec fn fills_role(
    table: Seq<(Seq<char>, Seq<char>)>,
    role: Seq<char>,
    color: Seq<char>,
) -> bool {
    exists|i: int| 0 <= i < table.len() && #[trigger] table[i] == (role, color)
}

/// Whether the role has the channels of `color` with the alpha byte `alpha` in the table.
pub open spec fn fills_faintly(
    table: Seq<(Seq<char>, Seq<char>)>,
    role: Seq<char>,
    color: Seq<char>,
    alpha: u8,
) -> bool {
    exists|i: int|
        {
            &&& 0 <= i < table.len()
            &&& (#[trigger] table[i]).0 == role
            &&& is_hex(table[i].1)
            &&& hex_color(table[i].1).rgb() == hex_color(color).rgb()
            &&& hex_color(table[i].1).a == alpha
        }
}

/// The borders of controls and the quiet borders fill their roles, each fitted color fills the
/// role that it was fitted for, and wrap guides are faint lines in the color of the guide.
pub proof fn lemma_boundaries_fill_their_roles(
    scenes: BoundaryScenes,
    control_border: Seq<char>,
    variant_border: Seq<char>,
    fits: Seq<Seq<char>>,
    guide: Seq<char>,
)
    ensures
        ({
            let table = boundary_table(control_border, variant_border, fits, guide);
            &&& table.len() == 11
            &&& fills_role(table, "border"@, control_border)
            &&& fills_role(table, "border.variant"@, variant_border)
            &&& request_view(scenes).len() == 7
            &&& forall|i: int|
                0 <= i < 7 ==> fills_role(table, (#[trigger] request_view(scenes)[i]).0, fits[i])
            &&& fills_faintly(table, "editor.wrap_guide"@, guide, 0x0d)
            &&& fills_faintly(table, "editor.active_wrap_guide"@, guide, 0x1a)
        }),
{
    reveal(request_view);
    let table = boundary_table(control_border, variant_border, fits, guide);
    let requests = request_view(scenes);
    assert(table[0] == ("border"@, control_border));
    assert(table[1] == ("border.variant"@, variant_border));
    assert forall|i: int| 0 <= i < 7 implies fills_role(
        table,
        (#[trigger] requests[i]).0,
        fits[i],
    ) by {
        assert(table[2 + i] == (requests[i].0, fits[i]));
    }
    lemma_hex_round_trip(Rgba { a: 13, ..hex_color(guide) });
    lemma_hex_round_trip(Rgba { a: 26, ..hex_color(guide) });
    assert(table[9].0 == "editor.wrap_guide"@);
    assert(table[10].0 == "editor.active_wrap_guide"@);
}

/// Whether the line is drawn in the opacity between two surfaces, over the inner one.
pub open spec fn outlines(
    contacts: Seq<ContactView>,
    outside: Seq<char>,
    inside: Seq<char>,
    opacity: u16,
) -> bool {
    exists|i: int|
        {
            &&& 0 <= i < contacts.len()
            &&& (#[trigger] contacts[i]).outside == outside
            &&& contacts[i].inside == inside
            &&& contacts[i].under == inside
            &&& contacts[i].opacity == opacity
        }
}

/// Whether every line is a line on one surface, seen in full.
pub open spec fn are_lines_on(contacts: Seq<ContactView>, surfaces: Seq<Seq<char>>) -> bool {
    &&& contacts.len() == surfaces.len()
    &&& forall|i: int|
        0 <= i < contacts.len() ==> {
            let contact = #[trigger] contacts[i];
            &&& contact.under == surfaces[i]
            &&& contact.outside == surfaces[i]
            &&& contact.inside == surfaces[i]
            &&& contact.opacity == 1000
        }
}

/// Whether the request at `at` is for the role, in the strength and seen in full.
pub open spec fn group_for(
    scenes: BoundaryScenes,
    at: int,
    role: Seq<char>,
    strength: Strength,
) -> bool {
    &&& request_view(scenes)[at].0 == role
    &&& request_view(scenes)[at].1.strength == strength
    &&& request_view(scenes)[at].1.emphasis == Emphasis::Full
}

/// What each role of its own is fitted to: disabled borders to the outlines of inputs, pane
/// borders to lines between panes, the edge of the track to the track over the canvas,
/// thumbs to their three states over what they scroll, and indent guides to lines on the
/// canvas, of which the active one is stronger.
pub proof fn lemma_requested_boundaries(scenes: BoundaryScenes)
    ensures
        ({
            let colors = scenes.colors;
            let requests = request_view(scenes);
            let track = filled_with(colors.canvas@, colors.track@);
            let line = filled_with(colors.canvas@, colors.active_line@);
            &&& group_for(scenes, 0, "border.disabled"@, Strength::Passive)
            &&& outlines(requests[0].1.contacts, colors.panel@, colors.canvas@, 1000)
            &&& outlines(requests[0].1.contacts, colors.canvas@, colors.canvas@, 1000)
            &&& group_for(scenes, 1, "pane_group.border"@, Strength::Normal)
            &&& are_lines_on(
                requests[1].1.contacts,
                seq![colors.canvas@, colors.chrome@, colors.inactive@],
            )
            &&& group_for(scenes, 2, "scrollbar.track.border"@, Strength::Passive)
            &&& outlines(requests[2].1.contacts, colors.canvas@, track, 1000)
            &&& group_for(scenes, 3, "scrollbar.thumb.border"@, Strength::Passive)
            &&& outlines(requests[3].1.contacts, track, filled_with(track, colors.thumb@), 1000)
            &&& outlines(
                requests[3].1.contacts,
                track,
                filled_with(track, colors.thumb_hover@),
                1000,
            )
            &&& outlines(
                requests[3].1.contacts,
                track,
                filled_with(track, colors.thumb_active@),
                1000,
            )
            &&& group_for(scenes, 4, "minimap.thumb.border"@, Strength::Passive)
            &&& outlines(
                requests[4].1.contacts,
                colors.canvas@,
                filled_with(colors.canvas@, colors.minimap@),
                1000,
            )
            &&& outlines(
                requests[4].1.contacts,
                colors.canvas@,
                filled_with(colors.canvas@, colors.minimap_hover@),
                1000,
            )
            &&& outlines(
                requests[4].1.contacts,
                colors.canvas@,
                filled_with(colors.canvas@, colors.minimap_active@),
                1000,
            )
            &&& outlines(requests[4].1.contacts, line, filled_with(line, colors.minimap@), 1000)
            &&& outlines(
                requests[4].1.contacts,
                line,
                filled_with(line, colors.minimap_hover@),
                1000,
            )
            &&& outlines(
                requests[4].1.contacts,
                line,
                filled_with(line, colors.minimap_active@),
                1000,
            )
            &&& group_for(scenes, 5, "editor.indent_guide"@, Strength::Passive)
            &&& are_lines_on(requests[5].1.contacts, seq![colors.canvas@])
            &&& group_for(scenes, 6, "editor.indent_guide_active"@, Strength::ActiveGuide)
            &&& are_lines_on(requests[6].1.contacts, seq![colors.canvas@])
        }),
{
    reveal(request_view);
    let requests = request_view(scenes);
    let colors = scenes.colors;
    assert(requests[0].1.contacts[0].outside == colors.panel@);
    assert(requests[0].1.contacts[1].outside == colors.canvas@);
    assert(requests[2].1.contacts[0].outside == colors.canvas@);
    let thumbs = requests[3].1.contacts;
    assert(thumbs[0].inside == filled_with(filled_with(colors.canvas@, colors.track@), colors.thumb@));
    assert(thumbs[1].opacity == 1000 && thumbs[2].opacity == 1000);
    let minimap = requests[4].1.contacts;
    assert(minimap[0].opacity == 1000 && minimap[1].opacity == 1000);
    assert(minimap[2].opacity == 1000 && minimap[3].opacity == 1000);
    assert(minimap[4].opacity == 1000 && minimap[5].opacity == 1000);
}

/// Whether a line is drawn in the opacity that the emphasis says, and a separator lies on one
/// surface.
pub open spec fn is_coherent(group: GroupView) -> bool {
    forall|i: int|
        0 <= i < group.contacts.len() ==> {
            let contact = #[trigger] group.contacts[i];
            &&& contact.opacity == match group.emphasis {
                Emphasis::Full => 1000,
                Emphasis::FadedLine(opacity) => opacity,
                Emphasis::FadedOutline(opacity) => opacity,
            }
            &&& group.purpose == Purpose::Separator ==> contact.under == contact.outside
                && contact.inside == contact.outside
        }
}

proof fn lemma_kind_opacity(scenes: BoundaryScenes, kind: ControlKind, hosts: int)
    requires
        0 <= hosts <= 4,
    ensures
        forall|i: int|
            0 <= i < scenes.contacts_of(kind, hosts).len() ==> (
            #[trigger] scenes.contacts_of(kind, hosts)[i]).opacity == shown_at(kind),
    decreases hosts,
{
    if hosts > 0 {
        lemma_kind_opacity(scenes, kind, hosts - 1);
        let before = scenes.contacts_of(kind, hosts - 1);
        let added = scenes.contacts_on(kind, hosts - 1);
        let all = scenes.contacts_of(kind, hosts);
        assert forall|i: int| 0 <= i < all.len() implies (#[trigger] all[i]).opacity == shown_at(
            kind,
        ) by {
            if i < before.len() {
                assert(all[i] == before[i]);
            } else {
                assert(all[i] == added[i - before.len()]);
            }
        }
    }
}

/// In which opacity the boundary of a control is drawn, in thousandths.
pub open spec fn shown_at(kind: ControlKind) -> u16 {
    match kind {
        ControlKind::Toggle => 600,
        ControlKind::Split => 800,
        ControlKind::CheckboxHover => 700,
        ControlKind::SelectedTree => 400,
        ControlKind::Banner => 500,
        _ => 1000,
    }
}

/// Everything that the ordinary border is fitted to asks for its normal strength, and
/// everything that the quiet border is fitted to for the passive one; lines are drawn in the
/// opacity that their group is fitted for, and separators lie on one surface.
pub proof fn lemma_groups_are_coherent(scenes: BoundaryScenes)
    ensures
        forall|i: int|
            0 <= i < normal_view(scenes).len() ==> (#[trigger] normal_view(scenes)[i]).strength
                == Strength::Normal && is_coherent(normal_view(scenes)[i]),
        forall|i: int|
            0 <= i < variant_view(scenes).len() ==> (#[trigger] variant_view(scenes)[i]).strength
                == Strength::Passive && is_coherent(variant_view(scenes)[i]),
{
    reveal(normal_view);
    reveal(variant_view);
    lemma_kind_opacity(scenes, ControlKind::Popup, 4);
    lemma_kind_opacity(scenes, ControlKind::Control, 4);
    lemma_kind_opacity(scenes, ControlKind::Outlined, 4);
    lemma_kind_opacity(scenes, ControlKind::Disabled, 4);
    lemma_kind_opacity(scenes, ControlKind::Toggle, 4);
    lemma_kind_opacity(scenes, ControlKind::Split, 4);
    lemma_kind_opacity(scenes, ControlKind::CheckboxHover, 4);
    lemma_kind_opacity(scenes, ControlKind::SelectedTree, 4);
    lemma_kind_opacity(scenes, ControlKind::Table, 4);
    lemma_kind_opacity(scenes, ControlKind::Callout, 4);
    lemma_kind_opacity(scenes, ControlKind::Banner, 4);
}

/// What the boundary of each kind of control goes around, on the host at `at`.
pub proof fn lemma_controls_are_outlined(scenes: BoundaryScenes, at: int)
    requires
        0 <= at < 4,
    ensures
        ({
            let colors = scenes.colors;
            let host = colors.host_views()[at];
            let popup = scenes.contacts_on(ControlKind::Popup, at);
            let control = scenes.contacts_on(ControlKind::Control, at);
            let outlined = scenes.contacts_on(ControlKind::Outlined, at);
            let disabled = scenes.contacts_on(ControlKind::Disabled, at);
            let checkbox = scenes.contacts_on(ControlKind::CheckboxHover, at);
            let tree = scenes.contacts_on(ControlKind::SelectedTree, at);
            let table = scenes.contacts_on(ControlKind::Table, at);
            let callout = scenes.contacts_on(ControlKind::Callout, at);
            let banner = scenes.contacts_on(ControlKind::Banner, at);
            let off = filled_with(host, colors.disabled@);
            &&& outlines(popup, host, colors.elevated@, 1000)
            &&& outlines(control, host, colors.canvas@, 1000)
            &&& outlines(control, host, colors.panel@, 1000)
            &&& outlines(control, host, host, 1000)
            &&& outlines(control, host, off, 1000)
            &&& outlines(control, host, filled_with(off, scenes.fades@[0]@), 1000)
            &&& outlines(control, host, filled_with(host, colors.ghost_fill@), 1000)
            &&& outlines(control, host, filled_with(host, colors.element_fill@), 1000)
            &&& outlines(control, host, filled_with(host, colors.ghost_hover@), 1000)
            &&& outlines(control, host, filled_with(host, colors.ghost_active@), 1000)
            &&& outlines(control, host, filled_with(host, colors.ghost_selected@), 1000)
            &&& outlines(outlined, host, host, 1000)
            &&& outlines(outlined, host, colors.canvas@, 1000)
            &&& outlines(outlined, host, colors.panel@, 1000)
            &&& outlines(outlined, host, colors.elevated@, 1000)
            &&& outlines(outlined, host, filled_with(host, colors.ghost_hover@), 1000)
            &&& outlines(outlined, host, filled_with(host, colors.element_active@), 1000)
            &&& outlines(disabled, host, filled_with(host, scenes.fades@[1]@), 1000)
            &&& outlines(checkbox, host, filled_with(host, colors.ghost_fill@), 700)
            &&& outlines(checkbox, host, filled_with(host, colors.element_fill@), 700)
            &&& outlines(checkbox, host, host, 700)
            &&& outlines(checkbox, host, colors.canvas@, 700)
            &&& outlines(checkbox, host, colors.panel@, 700)
            &&& outlines(tree, host, filled_with(host, scenes.fades@[2]@), 400)
            &&& outlines(tree, host, filled_with(host, colors.element_hover@), 400)
            &&& outlines(table, host, filled_with(host, scenes.fades@[3]@), 1000)
            &&& outlines(callout, host, filled_with(host, scenes.fades@[4]@), 1000)
            &&& outlines(callout, host, filled_with(host, scenes.fades@[5]@), 1000)
            &&& outlines(callout, host, filled_with(host, scenes.fades@[6]@), 1000)
            &&& outlines(callout, host, filled_with(host, scenes.fades@[7]@), 1000)
            &&& outlines(banner, host, filled_with(host, scenes.fades@[8]@), 500)
        }),
{
    let host = scenes.colors.host_views()[at];
    assert(scenes.contacts_on(ControlKind::Popup, at)[0].outside == host);
    let control = scenes.contacts_on(ControlKind::Control, at);
    assert forall|i: int| 0 <= i < 11 implies (#[trigger] control[i]).outside == host by {}
    assert(control[0].outside == host && control[1].outside == host && control[2].outside == host);
    assert(control[3].outside == host && control[4].outside == host && control[5].outside == host);
    assert(control[6].outside == host && control[7].outside == host && control[8].outside == host);
    assert(control[10].outside == host);
    let outlined = scenes.contacts_on(ControlKind::Outlined, at);
    assert(outlined[0].outside == host && outlined[1].outside == host);
    assert(outlined[2].outside == host && outlined[3].outside == host);
    assert(outlined[4].outside == host && outlined[5].outside == host);
    assert(scenes.contacts_on(ControlKind::Disabled, at)[0].outside == host);
    let checkbox = scenes.contacts_on(ControlKind::CheckboxHover, at);
    assert(checkbox[0].outside == host && checkbox[1].outside == host);
    assert(checkbox[2].outside == host && checkbox[3].outside == host);
    assert(checkbox[4].outside == host);
    let tree = scenes.contacts_on(ControlKind::SelectedTree, at);
    assert(tree[0].outside == host && tree[1].outside == host);
    assert(scenes.contacts_on(ControlKind::Table, at)[0].outside == host);
    let callout = scenes.contacts_on(ControlKind::Callout, at);
    assert(callout[0].outside == host && callout[1].outside == host);
    assert(callout[2].outside == host && callout[3].outside == host);
    assert(scenes.contacts_on(ControlKind::Banner, at)[0].outside == host);
}

/// Whether the contact goes around the fill: over the host where it is a frame without a fill
/// of its own, else over the fill.
pub open spec fn goes_around(
    contact: ContactView,
    framed: bool,
    host: Seq<char>,
    fill: Seq<char>,
) -> bool {
    &&& contact.outside == host
    &&& contact.inside == fill
    &&& contact.under == if framed {
        host
    } else {
        fill
    }
}

/// A toggle group frames its parts without a fill of its own and a split button outlines them:
/// at rest, filled, hovered, active in either kind, selected, and selected under the pointer.
pub proof fn lemma_toggles_are_framed(scenes: BoundaryScenes, kind: ControlKind, at: int)
    requires
        0 <= at < 4,
        kind == ControlKind::Toggle || kind == ControlKind::Split,
    ensures
        ({
            let colors = scenes.colors;
            let host = colors.host_views()[at];
            let contacts = scenes.contacts_on(kind, at);
            let framed = kind == ControlKind::Toggle;
            &&& contacts.len() == 7
            &&& goes_around(contacts[0], framed, host, filled_with(host, colors.ghost_fill@))
            &&& goes_around(contacts[1], framed, host, filled_with(host, colors.element_fill@))
            &&& goes_around(contacts[2], framed, host, filled_with(host, colors.ghost_hover@))
            &&& goes_around(contacts[3], framed, host, filled_with(host, colors.ghost_active@))
            &&& goes_around(contacts[4], framed, host, filled_with(host, colors.element_active@))
            &&& goes_around(contacts[5], framed, host, filled_with(host, colors.selected@))
            &&& goes_around(contacts[6], framed, host, scenes.hovers@[at]@)
            &&& forall|i: int|
                0 <= i < 7 ==> (#[trigger] contacts[i]).opacity == if framed {
                    600u16
                } else {
                    800
                }
        }),
{
}

/// The surfaces that controls stand on are the canvas, the panel, the elevated surface and
/// the frame.
pub proof fn lemma_hosts(colors: BoundaryColors)
    ensures
        colors.host_views() == seq![colors.canvas@, colors.panel@, colors.elevated@, colors.chrome@],
{
}

/// What is shown thinner than its role, in thousandths: text under the pointer, where a dark
/// theme shows less of it than a light one; what is disabled, active or hovered; callouts
/// that inform, confirm, warn and report an error; and a banner.
pub proof fn lemma_faded_overlays(dark: bool)
    ensures
        ({
            let faded = faded_view(dark);
            &&& faded.len() == 9
            &&& faded[0].0 == "text"@
            &&& dark ==> faded[0].1 == 50
            &&& !dark ==> faded[0].1 == 75
            &&& faded[1] == ("element.disabled"@, 600u16)
            &&& faded[2] == ("element.active"@, 500u16)
            &&& faded[3] == ("element.hover"@, 600u16)
            &&& faded[4] == ("info.background"@, 100u16)
            &&& faded[5] == ("success"@, 100u16)
            &&& faded[6] == ("warning.background"@, 200u16)
            &&& faded[7] == ("error"@, 80u16)
            &&& faded[8] == ("info.background"@, 500u16)
        }),
{
}

/// A fill over its host is what is seen of the two.
pub proof fn lemma_fill_is_seen(host: Seq<char>, overlay: Seq<char>)
    ensures
        filled_with(host, overlay) == overlaid(hex_color(host), hex_color(overlay)).rgb().hex_view(),
{
    reveal(filled_with);
    lemma_layers_follow_each_other(host, seq![overlay], Seq::empty());
}

/// Dividers are lines on every surface, joins go between the surfaces that meet, and faded
/// lines lie on the surfaces that controls stand on; ordinary and quiet borders alike.
pub proof fn lemma_dividers_and_joins(scenes: BoundaryScenes)
    ensures
        ({
            let colors = scenes.colors;
            let surfaces = seq![
                colors.canvas@,
                colors.panel@,
                colors.elevated@,
                colors.chrome@,
                colors.inactive@,
            ];
            let normal = normal_view(scenes);
            let variant = variant_view(scenes);
            &&& are_lines_on(normal[0].contacts, surfaces)
            &&& are_lines_on(variant[0].contacts, surfaces)
            &&& joins_surfaces(colors, normal[1].contacts)
            &&& joins_surfaces(colors, variant[1].contacts)
            &&& is_faded_on_hosts(colors, normal[10].contacts, 500)
            &&& is_faded_on_hosts(colors, normal[11].contacts, 600)
            &&& is_faded_on_hosts(colors, normal[12].contacts, 800)
            &&& is_faded_on_hosts(colors, variant[5].contacts, 400)
            &&& is_faded_on_hosts(colors, variant[6].contacts, 600)
        }),
{
    reveal(normal_view);
    reveal(variant_view);
    let normal = normal_view(scenes)[1].contacts;
    assert(normal[0].opacity == 1000 && normal[1].opacity == 1000);
    assert(normal[2].opacity == 1000 && normal[3].opacity == 1000);
    let variant = variant_view(scenes)[1].contacts;
    assert(variant[0].opacity == 1000 && variant[1].opacity == 1000);
    assert(variant[2].opacity == 1000 && variant[3].opacity == 1000);
}

/// Whether the lines go between the canvas and the panel, the canvas and the frame, the frame
/// and an inactive tab, and the panel and the frame.
pub open spec fn joins_surfaces(colors: BoundaryColors, contacts: Seq<ContactView>) -> bool {
    &&& outlines(contacts, colors.canvas@, colors.panel@, 1000)
    &&& outlines(contacts, colors.canvas@, colors.chrome@, 1000)
    &&& outlines(contacts, colors.chrome@, colors.inactive@, 1000)
    &&& outlines(contacts, colors.panel@, colors.chrome@, 1000)
}

/// Whether a faded line lies on each surface that controls stand on.
pub open spec fn is_faded_on_hosts(
    colors: BoundaryColors,
    contacts: Seq<ContactView>,
    opacity: u16,
) -> bool {
    &&& contacts.len() == 4
    &&& forall|i: int|
        0 <= i < 4 ==> {
            let contact = #[trigger] contacts[i];
            &&& contact.under == colors.host_views()[i]
            &&& contact.outside == colors.host_views()[i]
            &&& contact.inside == colors.host_views()[i]
            &&& contact.opacity == opacity
        }
}

} // verus!
