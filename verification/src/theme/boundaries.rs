//! The boundaries of a theme: which lines and outlines meet which surfaces and fills.
//!
//! Neutral boundaries are fitted after their surfaces and the fills of their states
//! exist. This module says what each of them meets; how visible a line is over what
//! it meets is a measurement.

use crate::color::{
    hex_color, invalid_hex_message, is_hex, layered, lemma_hex_round_trip, overlaid, parse_hex,
    render_layers, Rgba,
};
use crate::json::{get_text, text_at, Json};
use crate::map::TextMap;
use crate::text::{slice_views, views};
use crate::{Error, Result};
use vstd::prelude::*;

verus! {

/// A line drawn over `under`, between `outside` and `inside`. The opacity is in
/// thousandths.
#[derive(Clone, Debug)]
pub struct Contact {
    pub under: String,
    pub outside: String,
    pub inside: String,
    pub opacity: u16,
}

/// What a [`Contact`] holds.
pub struct ContactView {
    pub under: Seq<char>,
    pub outside: Seq<char>,
    pub inside: Seq<char>,
    pub opacity: u16,
}

impl View for Contact {
    type V = ContactView;

    open spec fn view(&self) -> ContactView {
        ContactView {
            under: self.under@,
            outside: self.outside@,
            inside: self.inside@,
            opacity: self.opacity,
        }
    }
}

/// What a vector of contacts holds.
pub open spec fn contact_views(contacts: Seq<Contact>) -> Seq<ContactView> {
    contacts.map_values(|contact: Contact| contact@)
}

/// A line on one surface.
pub open spec fn line_on(base: Seq<char>, opacity: u16) -> ContactView {
    ContactView { under: base, outside: base, inside: base, opacity }
}

/// The outline of a filled shape, drawn over its fill.
pub open spec fn line_around(host: Seq<char>, fill: Seq<char>, opacity: u16) -> ContactView {
    ContactView { under: fill, outside: host, inside: fill, opacity }
}

/// A frame without a fill of its own around a child that has one.
pub open spec fn frame_around(host: Seq<char>, child: Seq<char>, opacity: u16) -> ContactView {
    ContactView { under: host, outside: host, inside: child, opacity }
}

pub(crate) fn separator(base: &String, opacity: u16) -> (contact: Contact)
    ensures
        contact@ == line_on(base@, opacity),
{
    Contact { under: base.clone(), outside: base.clone(), inside: base.clone(), opacity }
}

pub(crate) fn outline(host: &String, fill: &String, opacity: u16) -> (contact: Contact)
    ensures
        contact@ == line_around(host@, fill@, opacity),
{
    Contact { under: fill.clone(), outside: host.clone(), inside: fill.clone(), opacity }
}

fn frame(host: &String, child: &String, opacity: u16) -> (contact: Contact)
    ensures
        contact@ == frame_around(host@, child@, opacity),
{
    Contact { under: host.clone(), outside: host.clone(), inside: child.clone(), opacity }
}

fn push_contact(contacts: &mut Vec<Contact>, contact: Contact)
    ensures
        contact_views(final(contacts)@) == contact_views(old(contacts)@).push(contact@),
{
    contacts.push(contact);
    assert(contact_views(contacts@) =~= contact_views(old(contacts)@).push(contact@));
}

/// The colors of the style that boundaries meet.
#[derive(Clone, Debug)]
pub struct BoundaryColors {
    pub canvas: String,
    pub panel: String,
    pub elevated: String,
    pub chrome: String,
    pub inactive: String,
    pub disabled: String,
    pub text: String,
    pub ghost_fill: String,
    pub element_fill: String,
    pub ghost_hover: String,
    pub ghost_active: String,
    pub ghost_selected: String,
    pub element_active: String,
    pub selected: String,
    pub element_hover: String,
    pub success: String,
    pub warning: String,
    pub error: String,
    pub title_bar: String,
    pub focused: String,
    pub track: String,
    pub active_line: String,
    pub thumb: String,
    pub thumb_hover: String,
    pub thumb_active: String,
    pub minimap: String,
    pub minimap_hover: String,
    pub minimap_active: String,
}

/// What is wrong with the role of a style, as far as boundaries go.
pub open spec fn scene_fault(style: Map<Seq<char>, Json>, role: Seq<char>) -> Option<Seq<char>> {
    match text_at(style, role) {
        None => Some("boundary scene requires generated role "@ + role),
        Some(color) => if is_hex(color) {
            None
        } else {
            Some(invalid_hex_message(color))
        },
    }
}

/// The roles that boundaries meet, in the order in which they are read.
pub const SCENE_ROLES: [&'static str; 28] = [
    "editor.background",
    "panel.background",
    "elevated_surface.background",
    "tab_bar.background",
    "tab.inactive_background",
    "element.disabled",
    "text",
    "ghost_element.background",
    "element.background",
    "ghost_element.hover",
    "ghost_element.active",
    "ghost_element.selected",
    "element.active",
    "info.background",
    "element.hover",
    "success",
    "warning.background",
    "error",
    "title_bar.background",
    "border.focused",
    "scrollbar.track.background",
    "editor.active_line.background",
    "scrollbar.thumb.background",
    "scrollbar.thumb.hover_background",
    "scrollbar.thumb.active_background",
    "minimap.thumb.background",
    "minimap.thumb.hover_background",
    "minimap.thumb.active_background",
];

/// What is wrong with the first role from `from` on.
pub open spec fn scenes_fault(style: Map<Seq<char>, Json>, from: int) -> Option<Seq<char>>
    decreases SCENE_ROLES@.len() - from,
{
    if from < 0 || from >= SCENE_ROLES@.len() {
        None
    } else if scene_fault(style, SCENE_ROLES@[from]@) is Some {
        scene_fault(style, SCENE_ROLES@[from]@)
    } else {
        scenes_fault(style, from + 1)
    }
}

impl BoundaryColors {
    /// The colors in the order of their roles.
    pub open spec fn colors(&self) -> Seq<Seq<char>> {
        seq![
            self.canvas@,
            self.panel@,
            self.elevated@,
            self.chrome@,
            self.inactive@,
            self.disabled@,
            self.text@,
            self.ghost_fill@,
            self.element_fill@,
            self.ghost_hover@,
            self.ghost_active@,
            self.ghost_selected@,
            self.element_active@,
            self.selected@,
            self.element_hover@,
            self.success@,
            self.warning@,
            self.error@,
            self.title_bar@,
            self.focused@,
            self.track@,
            self.active_line@,
            self.thumb@,
            self.thumb_hover@,
            self.thumb_active@,
            self.minimap@,
            self.minimap_hover@,
            self.minimap_active@,
        ]
    }

    /// Every color is a hex color.
    pub open spec fn is_valid(&self) -> bool {
        forall|i: int| 0 <= i < self.colors().len() ==> is_hex(#[trigger] self.colors()[i])
    }

    /// The surfaces that controls stand on.
    pub open spec fn host_views(&self) -> Seq<Seq<char>> {
        seq![self.canvas@, self.panel@, self.elevated@, self.chrome@]
    }
}

fn scene_color(style: &TextMap<Json>, role: &str) -> (result: Result<String>)
    ensures
        result is Ok <==> scene_fault(style@, role@) is None,
        result matches Ok(color) ==> text_at(style@, role@) == Some(color@) && is_hex(color@),
        result matches Err(error) ==> error.is_invalid(scene_fault(style@, role@)->0),
{
    match get_text(style, role) {
        None => {
            let mut message = "boundary scene requires generated role ".to_owned();
            message.append(role);
            Err(Error::invalid(message))
        },
        Some(color) => {
            parse_hex(color)?;
            Ok(color.to_owned())
        },
    }
}

impl BoundaryColors {
    /// Reads the colors of a style.
    pub fn read(style: &TextMap<Json>) -> (result: Result<Self>)
        ensures
            result is Ok <==> scenes_fault(style@, 0) is None,
            result matches Ok(read) ==> read.is_valid() && forall|i: int|
                0 <= i < SCENE_ROLES@.len() ==> text_at(
                    style@,
                    #[trigger] SCENE_ROLES@[i]@,
                ) == Some(
                    read.colors()[i],
                ),
            result matches Err(error) ==> error.is_invalid(scenes_fault(style@, 0)->0),
    {
        let mut found: Vec<String> = Vec::new();
        let mut index: usize = 0;
        while index < 28
            invariant
                index <= 28,
                found@.len() == index,
                scenes_fault(style@, 0) == scenes_fault(style@, index as int),
                forall|i: int|
                    0 <= i < index ==> is_hex((#[trigger] found@[i])@) && text_at(
                        style@,
                        SCENE_ROLES@[i]@,
                    ) == Some(found@[i]@),
            decreases 28 - index,
        {
            found.push(scene_color(style, SCENE_ROLES[index])?);
            index += 1;
        }
        let read = BoundaryColors {
            canvas: found[0].clone(),
            panel: found[1].clone(),
            elevated: found[2].clone(),
            chrome: found[3].clone(),
            inactive: found[4].clone(),
            disabled: found[5].clone(),
            text: found[6].clone(),
            ghost_fill: found[7].clone(),
            element_fill: found[8].clone(),
            ghost_hover: found[9].clone(),
            ghost_active: found[10].clone(),
            ghost_selected: found[11].clone(),
            element_active: found[12].clone(),
            selected: found[13].clone(),
            element_hover: found[14].clone(),
            success: found[15].clone(),
            warning: found[16].clone(),
            error: found[17].clone(),
            title_bar: found[18].clone(),
            focused: found[19].clone(),
            track: found[20].clone(),
            active_line: found[21].clone(),
            thumb: found[22].clone(),
            thumb_hover: found[23].clone(),
            thumb_active: found[24].clone(),
            minimap: found[25].clone(),
            minimap_hover: found[26].clone(),
            minimap_active: found[27].clone(),
        };
        assert(read.colors() =~= views(found@));
        Ok(read)
    }

    /// The surfaces that controls stand on.
    pub fn hosts(&self) -> (hosts: Vec<String>)
        ensures
            views(hosts@) == self.host_views(),
    {
        let hosts = vec![
            self.canvas.clone(),
            self.panel.clone(),
            self.elevated.clone(),
            self.chrome.clone(),
        ];
        assert(views(hosts@) =~= self.host_views());
        hosts
    }

    /// The fill of a selected control on each host.
    pub fn selected_fills(&self) -> (fills: Vec<String>)
        requires
            self.is_valid(),
        ensures
            views(fills@) == seq![
                filled_with(self.canvas@, self.selected@),
                filled_with(self.panel@, self.selected@),
                filled_with(self.elevated@, self.selected@),
                filled_with(self.chrome@, self.selected@),
            ],
    {
        proof {
            let colors = self.colors();
            assert(is_hex(colors[0]) && is_hex(colors[1]) && is_hex(colors[2]));
            assert(is_hex(colors[3]) && is_hex(colors[13]));
        }
        let fills = vec![
            fill(&self.canvas, &self.selected),
            fill(&self.panel, &self.selected),
            fill(&self.elevated, &self.selected),
            fill(&self.chrome, &self.selected),
        ];
        assert(views(fills@) =~= seq![
            filled_with(self.canvas@, self.selected@),
            filled_with(self.panel@, self.selected@),
            filled_with(self.elevated@, self.selected@),
            filled_with(self.chrome@, self.selected@),
        ]);
        fills
    }
}

/// A fill over its host.
#[verifier::opaque]
pub open spec fn filled_with(host: Seq<char>, overlay: Seq<char>) -> Seq<char> {
    layered(host, seq![overlay])
}

/// A fill over a surface is a color without transparency.
proof fn lemma_fill_is_hex(host: Seq<char>, overlay: Seq<char>)
    ensures
        is_hex(filled_with(host, overlay)),
{
    reveal(filled_with);
    let rgb = overlaid(
        hex_color(layered(host, seq![overlay].drop_last())),
        hex_color(overlay),
    ).rgb();
    let opaque = Rgba { r: rgb.r, g: rgb.g, b: rgb.b, a: 255 };
    lemma_hex_round_trip(opaque);
    assert(opaque.hex_view() =~= rgb.hex_view());
}

pub(crate) fn fill(host: &String, overlay: &String) -> (text: String)
    requires
        is_hex(host@),
        is_hex(overlay@),
    ensures
        text@ == filled_with(host@, overlay@),
        is_hex(text@),
{
    proof {
        reveal(filled_with);
        lemma_fill_is_hex(host@, overlay@);
    }
    let layers: [&str; 1] = [overlay.as_str()];
    assert(slice_views(layers@) =~= seq![overlay@]);
    match render_layers(host.as_str(), &layers) {
        Ok(text) => text,
        Err(_) => {
            assert(false);
            String::new()
        },
    }
}

/// The overlays that are shown thinner than their role, each with its opacity in
/// thousandths: a hovered switch, a disabled checkbox, a selected tree entry, a
/// hovered row, the four callouts and a banner.
pub open spec fn faded_view(dark: bool) -> Seq<(Seq<char>, u16)> {
    let hover: u16 = if dark {
        50
    } else {
        75
    };
    seq![
        ("text"@, hover),
        ("element.disabled"@, 600),
        ("element.active"@, 500),
        ("element.hover"@, 600),
        ("info.background"@, 100),
        ("success"@, 100),
        ("warning.background"@, 200),
        ("error"@, 80),
        ("info.background"@, 500),
    ]
}

/// The overlays that are shown thinner than their role.
pub fn faded_roles(dark: bool) -> (faded: Vec<(&'static str, u16)>)
    ensures
        faded@.len() == faded_view(dark).len(),
        forall|i: int|
            0 <= i < faded@.len() ==> (#[trigger] faded@[i]).0@ == faded_view(dark)[i].0
                && faded@[i].1 == faded_view(dark)[i].1,
{
    let hover: u16 = if dark {
        50
    } else {
        75
    };
    vec![
        ("text", hover),
        ("element.disabled", 600),
        ("element.active", 500),
        ("element.hover", 600),
        ("info.background", 100),
        ("success", 100),
        ("warning.background", 200),
        ("error", 80),
        ("info.background", 500),
    ]
}

/// What boundaries meet: the colors of the style, its faded overlays in their order,
/// and for each host the selected fill of a hovered control.
#[derive(Clone, Debug)]
pub struct BoundaryScenes {
    pub colors: BoundaryColors,
    pub fades: Vec<String>,
    pub hovers: Vec<String>,
}

/// The controls that have a boundary of their own.
#[derive(Clone, Copy, Debug, PartialEq, Eq, Structural)]
pub enum ControlKind {
    Popup,
    Control,
    Outlined,
    Disabled,
    Toggle,
    Split,
    CheckboxHover,
    SelectedTree,
    Table,
    Callout,
    Banner,
}

impl BoundaryScenes {
    /// Every color is a hex color, and none is missing.
    pub open spec fn is_valid(&self) -> bool {
        &&& self.colors.is_valid()
        &&& self.fades@.len() == 9
        &&& forall|i: int| 0 <= i < 9 ==> is_hex((#[trigger] self.fades@[i])@)
        &&& self.hovers@.len() == 4
        &&& forall|i: int| 0 <= i < 4 ==> is_hex((#[trigger] self.hovers@[i])@)
    }

    /// The contacts of controls, inputs and switches with the host.
    pub open spec fn controls_on(&self, host: Seq<char>) -> Seq<ContactView> {
        let disabled = filled_with(host, self.colors.disabled@);
        seq![
            line_around(host, self.colors.canvas@, 1000),
            line_around(host, disabled, 1000),
            line_around(host, filled_with(disabled, self.fades@[0]@), 1000),
            line_around(host, filled_with(host, self.colors.ghost_fill@), 1000),
            line_around(host, filled_with(host, self.colors.element_fill@), 1000),
            line_around(host, filled_with(host, self.colors.ghost_hover@), 1000),
            line_around(host, filled_with(host, self.colors.ghost_active@), 1000),
            line_around(host, filled_with(host, self.colors.ghost_selected@), 1000),
            line_around(host, host, 1000),
            line_around(host, self.colors.canvas@, 1000),
            line_around(host, self.colors.panel@, 1000),
        ]
    }

    /// The contacts of outlined buttons and inputs with the host.
    pub open spec fn outlined_on(&self, host: Seq<char>) -> Seq<ContactView> {
        seq![
            line_around(host, host, 1000),
            line_around(host, self.colors.canvas@, 1000),
            line_around(host, self.colors.panel@, 1000),
            line_around(host, self.colors.elevated@, 1000),
            line_around(host, filled_with(host, self.colors.ghost_hover@), 1000),
            line_around(host, filled_with(host, self.colors.element_active@), 1000),
        ]
    }

    /// The contacts of hovered checkboxes with the host.
    pub open spec fn checkboxes_on(&self, host: Seq<char>) -> Seq<ContactView> {
        seq![
            line_around(host, filled_with(host, self.colors.ghost_fill@), 700),
            line_around(host, filled_with(host, self.colors.element_fill@), 700),
            line_around(host, host, 700),
            line_around(host, self.colors.canvas@, 700),
            line_around(host, self.colors.panel@, 700),
        ]
    }

    /// The fills of the parts of a toggle group or split button on the host.
    pub open spec fn toggle_fills(&self, host: Seq<char>, hover: Seq<char>) -> Seq<Seq<char>> {
        seq![
            filled_with(host, self.colors.ghost_fill@),
            filled_with(host, self.colors.element_fill@),
            filled_with(host, self.colors.ghost_hover@),
            filled_with(host, self.colors.ghost_active@),
            filled_with(host, self.colors.element_active@),
            filled_with(host, self.colors.selected@),
            hover,
        ]
    }

    /// The contacts of one kind of control with the host. A toggle group clips its
    /// children inside a frame without a fill.
    pub open spec fn contacts_on(&self, kind: ControlKind, at: int) -> Seq<ContactView> {
        let host = self.colors.host_views()[at];
        let fills = self.toggle_fills(host, self.hovers@[at]@);
        match kind {
            ControlKind::Popup => seq![line_around(host, self.colors.elevated@, 1000)],
            ControlKind::Control => self.controls_on(host),
            ControlKind::Outlined => self.outlined_on(host),
            ControlKind::Disabled => seq![
                line_around(host, filled_with(host, self.fades@[1]@), 1000),
            ],
            ControlKind::Toggle => Seq::new(7, |i: int| frame_around(host, fills[i], 600)),
            ControlKind::Split => Seq::new(7, |i: int| line_around(host, fills[i], 800)),
            ControlKind::CheckboxHover => self.checkboxes_on(host),
            ControlKind::SelectedTree => seq![
                line_around(host, filled_with(host, self.fades@[2]@), 400),
                line_around(host, filled_with(host, self.colors.element_hover@), 400),
            ],
            ControlKind::Table => seq![line_around(host, filled_with(host, self.fades@[3]@), 1000)],
            ControlKind::Callout => Seq::new(
                4,
                |i: int| line_around(host, filled_with(host, self.fades@[4 + i]@), 1000),
            ),
            ControlKind::Banner => seq![line_around(host, filled_with(host, self.fades@[8]@), 500)],
        }
    }

    /// The contacts of one kind of control with the first hosts.
    pub open spec fn contacts_of(&self, kind: ControlKind, hosts: int) -> Seq<ContactView>
        decreases hosts,
    {
        if hosts <= 0 {
            Seq::empty()
        } else {
            self.contacts_of(kind, hosts - 1) + self.contacts_on(kind, hosts - 1)
        }
    }

    fn host(&self, at: usize) -> (host: &String)
        requires
            self.is_valid(),
            at < 4,
        ensures
            host@ == self.colors.host_views()[at as int],
            is_hex(host@),
    {
        proof {
            assert(is_hex(self.colors.colors()[at as int]));
        }
        if at == 0 {
            &self.colors.canvas
        } else if at == 1 {
            &self.colors.panel
        } else if at == 2 {
            &self.colors.elevated
        } else {
            &self.colors.chrome
        }
    }

    pub(crate) proof fn lemma_colors_are_hex(&self)
        requires
            self.is_valid(),
        ensures
            is_hex(self.colors.canvas@),
            is_hex(self.colors.panel@),
            is_hex(self.colors.elevated@),
            is_hex(self.colors.chrome@),
            is_hex(self.colors.inactive@),
            is_hex(self.colors.disabled@),
            is_hex(self.colors.ghost_fill@),
            is_hex(self.colors.element_fill@),
            is_hex(self.colors.ghost_hover@),
            is_hex(self.colors.ghost_active@),
            is_hex(self.colors.ghost_selected@),
            is_hex(self.colors.element_active@),
            is_hex(self.colors.selected@),
            is_hex(self.colors.element_hover@),
            is_hex(self.colors.track@),
            is_hex(self.colors.active_line@),
            is_hex(self.colors.thumb@),
            is_hex(self.colors.thumb_hover@),
            is_hex(self.colors.thumb_active@),
            is_hex(self.colors.minimap@),
            is_hex(self.colors.minimap_hover@),
            is_hex(self.colors.minimap_active@),
    {
        let colors = self.colors.colors();
        assert(is_hex(colors[0]) && is_hex(colors[1]) && is_hex(colors[2]) && is_hex(colors[3]));
        assert(is_hex(colors[4]) && is_hex(colors[5]) && is_hex(colors[7]) && is_hex(colors[8]));
        assert(is_hex(colors[9]) && is_hex(colors[10]) && is_hex(colors[11]) && is_hex(colors[12]));
        assert(is_hex(colors[13]) && is_hex(colors[14]) && is_hex(colors[20]));
        assert(is_hex(colors[21]) && is_hex(colors[22]) && is_hex(colors[23]));
        assert(
            is_hex(colors[24]) && is_hex(colors[25]) && is_hex(colors[26]) && is_hex(colors[27])
        );
    }

    fn controls(&self, host: &String) -> (contacts: Vec<Contact>)
        requires
            self.is_valid(),
            is_hex(host@),
        ensures
            contact_views(contacts@) == self.controls_on(host@),
    {
        proof {
            self.lemma_colors_are_hex();
        }
        let disabled = fill(host, &self.colors.disabled);
        let contacts = vec![
            outline(host, &self.colors.canvas, 1000),
            outline(host, &disabled, 1000),
            outline(host, &fill(&disabled, &self.fades[0]), 1000),
            outline(host, &fill(host, &self.colors.ghost_fill), 1000),
            outline(host, &fill(host, &self.colors.element_fill), 1000),
            outline(host, &fill(host, &self.colors.ghost_hover), 1000),
            outline(host, &fill(host, &self.colors.ghost_active), 1000),
            outline(host, &fill(host, &self.colors.ghost_selected), 1000),
            outline(host, host, 1000),
            outline(host, &self.colors.canvas, 1000),
            outline(host, &self.colors.panel, 1000),
        ];
        assert(contact_views(contacts@) =~= self.controls_on(host@));
        contacts
    }

    fn outlined(&self, host: &String) -> (contacts: Vec<Contact>)
        requires
            self.is_valid(),
            is_hex(host@),
        ensures
            contact_views(contacts@) == self.outlined_on(host@),
    {
        proof {
            self.lemma_colors_are_hex();
        }
        let contacts = vec![
            outline(host, host, 1000),
            outline(host, &self.colors.canvas, 1000),
            outline(host, &self.colors.panel, 1000),
            outline(host, &self.colors.elevated, 1000),
            outline(host, &fill(host, &self.colors.ghost_hover), 1000),
            outline(host, &fill(host, &self.colors.element_active), 1000),
        ];
        assert(contact_views(contacts@) =~= self.outlined_on(host@));
        contacts
    }

    fn checkboxes(&self, host: &String) -> (contacts: Vec<Contact>)
        requires
            self.is_valid(),
            is_hex(host@),
        ensures
            contact_views(contacts@) == self.checkboxes_on(host@),
    {
        proof {
            self.lemma_colors_are_hex();
        }
        let contacts = vec![
            outline(host, &fill(host, &self.colors.ghost_fill), 700),
            outline(host, &fill(host, &self.colors.element_fill), 700),
            outline(host, host, 700),
            outline(host, &self.colors.canvas, 700),
            outline(host, &self.colors.panel, 700),
        ];
        assert(contact_views(contacts@) =~= self.checkboxes_on(host@));
        contacts
    }

    fn toggles(&self, host: &String, hover: &String) -> (fills: Vec<String>)
        requires
            self.is_valid(),
            is_hex(host@),
        ensures
            views(fills@) == self.toggle_fills(host@, hover@),
    {
        proof {
            self.lemma_colors_are_hex();
        }
        let fills = vec![
            fill(host, &self.colors.ghost_fill),
            fill(host, &self.colors.element_fill),
            fill(host, &self.colors.ghost_hover),
            fill(host, &self.colors.ghost_active),
            fill(host, &self.colors.element_active),
            fill(host, &self.colors.selected),
            hover.clone(),
        ];
        assert(views(fills@) =~= self.toggle_fills(host@, hover@));
        fills
    }

    fn toggle_contacts(&self, at: usize, split: bool) -> (contacts: Vec<Contact>)
        requires
            self.is_valid(),
            at < 4,
        ensures
            contact_views(contacts@) == self.contacts_on(
                if split {
                    ControlKind::Split
                } else {
                    ControlKind::Toggle
                },
                at as int,
            ),
    {
        let host = self.host(at);
        let fills = self.toggles(host, &self.hovers[at]);
        let ghost expected = self.contacts_on(
            if split {
                ControlKind::Split
            } else {
                ControlKind::Toggle
            },
            at as int,
        );
        assert(fills@.len() == views(fills@).len());
        let mut contacts: Vec<Contact> = Vec::new();
        assert(contact_views(contacts@) =~= expected.take(0));
        let mut index: usize = 0;
        while index < 7
            invariant
                index <= 7,
                at < 4,
                expected == self.contacts_on(
                    if split {
                        ControlKind::Split
                    } else {
                        ControlKind::Toggle
                    },
                    at as int,
                ),
                host@ == self.colors.host_views()[at as int],
                views(fills@) == self.toggle_fills(host@, self.hovers@[at as int]@),
                fills@.len() == 7,
                contact_views(contacts@) == expected.take(index as int),
            decreases 7 - index,
        {
            assert(views(fills@)[index as int] == fills@[index as int]@);
            let contact = if split {
                outline(host, &fills[index], 800)
            } else {
                frame(host, &fills[index], 600)
            };
            assert(contact@ == expected[index as int]);
            push_contact(&mut contacts, contact);
            index += 1;
            assert(expected.take(index as int) =~= expected.take(index - 1).push(
                expected[index - 1],
            ));
        }
        assert(expected.take(7) =~= expected);
        contacts
    }

    fn contacts(&self, kind: ControlKind, at: usize) -> (contacts: Vec<Contact>)
        requires
            self.is_valid(),
            at < 4,
        ensures
            contact_views(contacts@) == self.contacts_on(kind, at as int),
    {
        proof {
            self.lemma_colors_are_hex();
        }
        let host = self.host(at);
        let contacts = match kind {
            ControlKind::Popup => vec![outline(host, &self.colors.elevated, 1000)],
            ControlKind::Control => self.controls(host),
            ControlKind::Outlined => self.outlined(host),
            ControlKind::Disabled => vec![outline(host, &fill(host, &self.fades[1]), 1000)],
            ControlKind::Toggle => self.toggle_contacts(at, false),
            ControlKind::Split => self.toggle_contacts(at, true),
            ControlKind::CheckboxHover => self.checkboxes(host),
            ControlKind::SelectedTree => vec![
                outline(host, &fill(host, &self.fades[2]), 400),
                outline(host, &fill(host, &self.colors.element_hover), 400),
            ],
            ControlKind::Table => vec![outline(host, &fill(host, &self.fades[3]), 1000)],
            ControlKind::Callout => vec![
                outline(host, &fill(host, &self.fades[4]), 1000),
                outline(host, &fill(host, &self.fades[5]), 1000),
                outline(host, &fill(host, &self.fades[6]), 1000),
                outline(host, &fill(host, &self.fades[7]), 1000),
            ],
            ControlKind::Banner => vec![outline(host, &fill(host, &self.fades[8]), 500)],
        };
        assert(contact_views(contacts@) =~= self.contacts_on(kind, at as int));
        contacts
    }

    /// Every contact of one kind of control, host by host.
    pub fn control_contacts(&self, kind: ControlKind) -> (contacts: Vec<Contact>)
        requires
            self.is_valid(),
        ensures
            contact_views(contacts@) == self.contacts_of(kind, 4),
    {
        let mut contacts: Vec<Contact> = Vec::new();
        assert(contact_views(contacts@) =~= self.contacts_of(kind, 0));
        let mut at: usize = 0;
        while at < 4
            invariant
                at <= 4,
                self.is_valid(),
                contact_views(contacts@) == self.contacts_of(kind, at as int),
            decreases 4 - at,
        {
            let mut more = self.contacts(kind, at);
            let ghost before = contacts@;
            let ghost added = more@;
            contacts.append(&mut more);
            assert(contact_views(contacts@) =~= contact_views(before) + contact_views(added));
            at += 1;
        }
        contacts
    }
}

/// What the contacts with a host lie on.
proof fn lemma_contacts_lie_on_their_host(
    scenes: BoundaryScenes,
    kind: ControlKind,
    at: int,
    i: int,
)
    requires
        0 <= at < 4,
        0 <= i < scenes.contacts_on(kind, at).len(),
    ensures
        scenes.contacts_on(kind, at)[i].outside == scenes.colors.host_views()[at],
{
}

/// Every kind of control is fitted against every surface that it can stand on.
pub proof fn lemma_controls_meet_every_host(
    scenes: BoundaryScenes,
    kind: ControlKind,
    at: int,
    i: int,
)
    requires
        0 <= at < 4,
        0 <= i < scenes.contacts_on(kind, at).len(),
    ensures
        scenes.contacts_of(kind, 4).contains(scenes.contacts_on(kind, at)[i]),
        scenes.contacts_on(kind, at)[i].outside == scenes.colors.host_views()[at],
{
    lemma_contacts_lie_on_their_host(scenes, kind, at, i);
    reveal_with_fuel(BoundaryScenes::contacts_of, 5);
    lemma_contained_in_a_row(
        scenes.contacts_on(kind, 0),
        scenes.contacts_on(kind, 1),
        scenes.contacts_on(kind, 2),
        scenes.contacts_on(kind, 3),
        at,
        i,
    );
    assert(scenes.contacts_of(kind, 0) + scenes.contacts_on(kind, 0) =~= scenes.contacts_on(
        kind,
        0,
    ));
}

proof fn lemma_contained_in_a_row(
    first: Seq<ContactView>,
    second: Seq<ContactView>,
    third: Seq<ContactView>,
    fourth: Seq<ContactView>,
    at: int,
    i: int,
)
    requires
        0 <= at < 4,
        0 <= i < (if at == 0 {
            first
        } else if at == 1 {
            second
        } else if at == 2 {
            third
        } else {
            fourth
        }).len(),
    ensures
        (first + second + third + fourth).contains(
            (if at == 0 {
                first
            } else if at == 1 {
                second
            } else if at == 2 {
                third
            } else {
                fourth
            })[i],
        ),
{
    let all = first + second + third + fourth;
    if at == 0 {
        assert(all[i] == first[i]);
    } else if at == 1 {
        assert(all[first.len() + i] == second[i]);
    } else if at == 2 {
        assert(all[first.len() + second.len() + i] == third[i]);
    } else {
        assert(all[first.len() + second.len() + third.len() + i] == fourth[i]);
    }
}

} // verus!
