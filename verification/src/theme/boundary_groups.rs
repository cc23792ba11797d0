//! The groups of boundaries that one color is fitted for, and the roles that the
//! fitted colors fill.

use crate::color::{hex_color, invalid_hex_message, is_hex, with_alpha, Rgba};
use crate::text::views;
use crate::theme::boundaries::{
    contact_views, fill, filled_with, line_around, line_on, outline, separator, BoundaryColors,
    BoundaryScenes, Contact, ContactView, ControlKind,
};
use crate::Result;
use vstd::prelude::*;

verus! {

/// What a boundary is there for.
#[derive(Clone, Copy, Debug, PartialEq, Eq, Structural)]
pub enum Purpose {
    Separator,
    FilledOutline,
}

/// Which band of contrast a boundary is fitted to.
#[derive(Clone, Copy, Debug, PartialEq, Eq, Structural)]
pub enum Strength {
    Normal,
    Passive,
    ActiveGuide,
}

/// How far an opacity, in thousandths, weakens a boundary. A faded line has a
/// smaller budget of salience. A faded outline keeps the ceiling of its whole
/// boundary, since the edge of the fill stays as it is.
#[derive(Clone, Copy, Debug, PartialEq, Eq, Structural)]
pub enum Emphasis {
    Full,
    FadedLine(u16),
    FadedOutline(u16),
}

/// Boundaries that are fitted together.
#[derive(Clone, Debug)]
pub struct ContactGroup {
    pub label: &'static str,
    pub purpose: Purpose,
    pub strength: Strength,
    pub emphasis: Emphasis,
    pub contacts: Vec<Contact>,
}

/// What a [`ContactGroup`] holds.
pub struct GroupView {
    pub label: Seq<char>,
    pub purpose: Purpose,
    pub strength: Strength,
    pub emphasis: Emphasis,
    pub contacts: Seq<ContactView>,
}

impl View for ContactGroup {
    type V = GroupView;

    open spec fn view(&self) -> GroupView {
        GroupView {
            label: self.label@,
            purpose: self.purpose,
            strength: self.strength,
            emphasis: self.emphasis,
            contacts: contact_views(self.contacts@),
        }
    }
}

/// What a vector of groups holds.
pub open spec fn group_views(groups: Seq<ContactGroup>) -> Seq<GroupView> {
    groups.map_values(|group: ContactGroup| group@)
}

/// A group with the given contents.
pub open spec fn group_of(
    label: Seq<char>,
    purpose: Purpose,
    strength: Strength,
    emphasis: Emphasis,
    contacts: Seq<ContactView>,
) -> GroupView {
    GroupView { label, purpose, strength, emphasis, contacts }
}

fn group(
    label: &'static str,
    purpose: Purpose,
    strength: Strength,
    emphasis: Emphasis,
    contacts: Vec<Contact>,
) -> (group: ContactGroup)
    ensures
        group@ == group_of(label@, purpose, strength, emphasis, contact_views(contacts@)),
{
    ContactGroup { label, purpose, strength, emphasis, contacts }
}

fn one_contact(contact: Contact) -> (contacts: Vec<Contact>)
    ensures
        contact_views(contacts@) == seq![contact@],
{
    let contacts = vec![contact];
    assert(contact_views(contacts@) =~= seq![contact@]);
    contacts
}

/// Lines on every surface.
pub open spec fn base_lines(colors: BoundaryColors) -> Seq<ContactView> {
    seq![
        line_on(colors.canvas@, 1000),
        line_on(colors.panel@, 1000),
        line_on(colors.elevated@, 1000),
        line_on(colors.chrome@, 1000),
        line_on(colors.inactive@, 1000),
    ]
}

fn base_contacts(colors: &BoundaryColors) -> (contacts: Vec<Contact>)
    ensures
        contact_views(contacts@) == base_lines(*colors),
{
    let contacts = vec![
        separator(&colors.canvas, 1000),
        separator(&colors.panel, 1000),
        separator(&colors.elevated, 1000),
        separator(&colors.chrome, 1000),
        separator(&colors.inactive, 1000),
    ];
    assert(contact_views(contacts@) =~= base_lines(*colors));
    contacts
}

/// Where two surfaces meet.
pub open spec fn joins(colors: BoundaryColors) -> Seq<ContactView> {
    seq![
        line_around(colors.canvas@, colors.panel@, 1000),
        line_around(colors.canvas@, colors.chrome@, 1000),
        line_around(colors.chrome@, colors.inactive@, 1000),
        line_around(colors.panel@, colors.chrome@, 1000),
    ]
}

fn join_contacts(colors: &BoundaryColors) -> (contacts: Vec<Contact>)
    ensures
        contact_views(contacts@) == joins(*colors),
{
    let contacts = vec![
        outline(&colors.canvas, &colors.panel, 1000),
        outline(&colors.canvas, &colors.chrome, 1000),
        outline(&colors.chrome, &colors.inactive, 1000),
        outline(&colors.panel, &colors.chrome, 1000),
    ];
    assert(contact_views(contacts@) =~= joins(*colors));
    contacts
}

/// Faded lines on the surfaces that controls stand on.
pub open spec fn host_lines(colors: BoundaryColors, opacity: u16) -> Seq<ContactView> {
    seq![
        line_on(colors.canvas@, opacity),
        line_on(colors.panel@, opacity),
        line_on(colors.elevated@, opacity),
        line_on(colors.chrome@, opacity),
    ]
}

fn host_contacts(colors: &BoundaryColors, opacity: u16) -> (contacts: Vec<Contact>)
    ensures
        contact_views(contacts@) == host_lines(*colors, opacity),
{
    let contacts = vec![
        separator(&colors.canvas, opacity),
        separator(&colors.panel, opacity),
        separator(&colors.elevated, opacity),
        separator(&colors.chrome, opacity),
    ];
    assert(contact_views(contacts@) =~= host_lines(*colors, opacity));
    contacts
}

/// The frames of rendered documents.
pub open spec fn document_frames(colors: BoundaryColors) -> Seq<ContactView> {
    seq![
        line_around(colors.canvas@, colors.canvas@, 1000),
        line_around(colors.canvas@, colors.panel@, 1000),
        line_around(colors.canvas@, colors.title_bar@, 1000),
        line_around(colors.canvas@, colors.element_fill@, 1000),
        line_around(colors.panel@, colors.canvas@, 1000),
        line_around(colors.panel@, colors.panel@, 1000),
        line_around(colors.panel@, colors.title_bar@, 1000),
        line_around(colors.panel@, colors.element_fill@, 1000),
        line_around(colors.elevated@, colors.canvas@, 1000),
        line_around(colors.elevated@, colors.panel@, 1000),
        line_around(colors.elevated@, colors.title_bar@, 1000),
        line_around(colors.elevated@, colors.element_fill@, 1000),
    ]
}

fn document_contacts(colors: &BoundaryColors) -> (contacts: Vec<Contact>)
    ensures
        contact_views(contacts@) == document_frames(*colors),
{
    let contacts = vec![
        outline(&colors.canvas, &colors.canvas, 1000),
        outline(&colors.canvas, &colors.panel, 1000),
        outline(&colors.canvas, &colors.title_bar, 1000),
        outline(&colors.canvas, &colors.element_fill, 1000),
        outline(&colors.panel, &colors.canvas, 1000),
        outline(&colors.panel, &colors.panel, 1000),
        outline(&colors.panel, &colors.title_bar, 1000),
        outline(&colors.panel, &colors.element_fill, 1000),
        outline(&colors.elevated, &colors.canvas, 1000),
        outline(&colors.elevated, &colors.panel, 1000),
        outline(&colors.elevated, &colors.title_bar, 1000),
        outline(&colors.elevated, &colors.element_fill, 1000),
    ];
    assert(contact_views(contacts@) =~= document_frames(*colors));
    contacts
}

/// The frames of disabled inputs.
pub open spec fn disabled_frames(colors: BoundaryColors) -> Seq<ContactView> {
    seq![
        line_around(colors.panel@, colors.canvas@, 1000),
        line_around(colors.canvas@, colors.canvas@, 1000),
    ]
}

fn disabled_contacts(colors: &BoundaryColors) -> (contacts: Vec<Contact>)
    ensures
        contact_views(contacts@) == disabled_frames(*colors),
{
    let contacts = vec![
        outline(&colors.panel, &colors.canvas, 1000),
        outline(&colors.canvas, &colors.canvas, 1000),
    ];
    assert(contact_views(contacts@) =~= disabled_frames(*colors));
    contacts
}

/// The lines between panes.
pub open spec fn pane_lines(colors: BoundaryColors) -> Seq<ContactView> {
    seq![
        line_on(colors.canvas@, 1000),
        line_on(colors.chrome@, 1000),
        line_on(colors.inactive@, 1000),
    ]
}

fn pane_contacts(colors: &BoundaryColors) -> (contacts: Vec<Contact>)
    ensures
        contact_views(contacts@) == pane_lines(*colors),
{
    let contacts = vec![
        separator(&colors.canvas, 1000),
        separator(&colors.chrome, 1000),
        separator(&colors.inactive, 1000),
    ];
    assert(contact_views(contacts@) =~= pane_lines(*colors));
    contacts
}

/// The track of a scrollbar over the canvas.
pub open spec fn track_of(colors: BoundaryColors) -> Seq<char> {
    filled_with(colors.canvas@, colors.track@)
}

/// The active line over the canvas.
pub open spec fn active_line_of(colors: BoundaryColors) -> Seq<char> {
    filled_with(colors.canvas@, colors.active_line@)
}

/// The outline of a thumb in each of its states.
pub open spec fn thumb_edges(
    underlay: Seq<char>,
    plain: Seq<char>,
    hovered: Seq<char>,
    active: Seq<char>,
) -> Seq<ContactView> {
    seq![
        line_around(underlay, filled_with(underlay, plain), 1000),
        line_around(underlay, filled_with(underlay, hovered), 1000),
        line_around(underlay, filled_with(underlay, active), 1000),
    ]
}

fn thumb_contacts(
    underlay: &String,
    plain: &String,
    hovered: &String,
    active: &String,
) -> (contacts:
    Vec<Contact>)
    requires
        is_hex(underlay@),
        is_hex(plain@),
        is_hex(hovered@),
        is_hex(active@),
    ensures
        contact_views(contacts@) == thumb_edges(underlay@, plain@, hovered@, active@),
{
    let contacts = vec![
        outline(underlay, &fill(underlay, plain), 1000),
        outline(underlay, &fill(underlay, hovered), 1000),
        outline(underlay, &fill(underlay, active), 1000),
    ];
    assert(contact_views(contacts@) =~= thumb_edges(underlay@, plain@, hovered@, active@));
    contacts
}

/// The edge of the track.
pub open spec fn track_edges(colors: BoundaryColors) -> Seq<ContactView> {
    seq![line_around(colors.canvas@, track_of(colors), 1000)]
}

fn track_contacts(scenes: &BoundaryScenes) -> (contacts: Vec<Contact>)
    requires
        scenes.is_valid(),
    ensures
        contact_views(contacts@) == track_edges(scenes.colors),
{
    proof {
        scenes.lemma_colors_are_hex();
    }
    let track = fill(&scenes.colors.canvas, &scenes.colors.track);
    one_contact(outline(&scenes.colors.canvas, &track, 1000))
}

/// The edges of the thumb of a scrollbar.
pub open spec fn scrollbar_edges(colors: BoundaryColors) -> Seq<ContactView> {
    thumb_edges(track_of(colors), colors.thumb@, colors.thumb_hover@, colors.thumb_active@)
}

fn scrollbar_contacts(scenes: &BoundaryScenes) -> (contacts: Vec<Contact>)
    requires
        scenes.is_valid(),
    ensures
        contact_views(contacts@) == scrollbar_edges(scenes.colors),
{
    proof {
        scenes.lemma_colors_are_hex();
    }
    let track = fill(&scenes.colors.canvas, &scenes.colors.track);
    thumb_contacts(
        &track,
        &scenes.colors.thumb,
        &scenes.colors.thumb_hover,
        &scenes.colors.thumb_active,
    )
}

/// The edges of the thumb of the minimap, over the canvas and over the active line.
pub open spec fn minimap_edges(colors: BoundaryColors) -> Seq<ContactView> {
    thumb_edges(colors.canvas@, colors.minimap@, colors.minimap_hover@, colors.minimap_active@)
        + thumb_edges(
        active_line_of(colors),
        colors.minimap@,
        colors.minimap_hover@,
        colors.minimap_active@,
    )
}

fn minimap_contacts(scenes: &BoundaryScenes) -> (contacts: Vec<Contact>)
    requires
        scenes.is_valid(),
    ensures
        contact_views(contacts@) == minimap_edges(scenes.colors),
{
    proof {
        scenes.lemma_colors_are_hex();
    }
    let colors = &scenes.colors;
    let line = fill(&colors.canvas, &colors.active_line);
    let mut contacts = thumb_contacts(
        &colors.canvas,
        &colors.minimap,
        &colors.minimap_hover,
        &colors.minimap_active,
    );
    let ghost before = contacts@;
    let mut more = thumb_contacts(
        &line,
        &colors.minimap,
        &colors.minimap_hover,
        &colors.minimap_active,
    );
    let ghost added = more@;
    contacts.append(&mut more);
    assert(contact_views(contacts@) =~= contact_views(before) + contact_views(added));
    contacts
}

/// What the ordinary border is fitted to.
#[verifier::opaque]
pub open spec fn normal_view(scenes: BoundaryScenes) -> Seq<GroupView> {
    seq![
        group_of(
            "workspace and same-surface dividers"@,
            Purpose::Separator,
            Strength::Normal,
            Emphasis::Full,
            base_lines(scenes.colors),
        ),
        group_of(
            "dock, tab and header joins"@,
            Purpose::FilledOutline,
            Strength::Normal,
            Emphasis::Full,
            joins(scenes.colors),
        ),
        group_of(
            "inputs, chips, lists and off switches"@,
            Purpose::FilledOutline,
            Strength::Normal,
            Emphasis::Full,
            scenes.contacts_of(ControlKind::Control, 4),
        ),
        group_of(
            "toggle group ancestor-composited frames"@,
            Purpose::FilledOutline,
            Strength::Normal,
            Emphasis::FadedOutline(600),
            scenes.contacts_of(ControlKind::Toggle, 4),
        ),
        group_of(
            "split button inset overlay"@,
            Purpose::FilledOutline,
            Strength::Normal,
            Emphasis::FadedOutline(800),
            scenes.contacts_of(ControlKind::Split, 4),
        ),
        group_of(
            "checkbox hover frames"@,
            Purpose::FilledOutline,
            Strength::Normal,
            Emphasis::FadedOutline(700),
            scenes.contacts_of(ControlKind::CheckboxHover, 4),
        ),
        group_of(
            "selected tree frames"@,
            Purpose::FilledOutline,
            Strength::Normal,
            Emphasis::FadedOutline(400),
            scenes.contacts_of(ControlKind::SelectedTree, 4),
        ),
        group_of(
            "unstriped data table rows"@,
            Purpose::FilledOutline,
            Strength::Normal,
            Emphasis::Full,
            scenes.contacts_of(ControlKind::Table, 4),
        ),
        group_of(
            "callout frames"@,
            Purpose::FilledOutline,
            Strength::Normal,
            Emphasis::Full,
            scenes.contacts_of(ControlKind::Callout, 4),
        ),
        group_of(
            "info banner frames"@,
            Purpose::FilledOutline,
            Strength::Normal,
            Emphasis::FadedOutline(500),
            scenes.contacts_of(ControlKind::Banner, 4),
        ),
        group_of(
            "faded application cards and tree guides"@,
            Purpose::Separator,
            Strength::Normal,
            Emphasis::FadedLine(500),
            host_lines(scenes.colors, 500),
        ),
        group_of(
            "faded application cards and tree guides"@,
            Purpose::Separator,
            Strength::Normal,
            Emphasis::FadedLine(600),
            host_lines(scenes.colors, 600),
        ),
        group_of(
            "faded application cards and tree guides"@,
            Purpose::Separator,
            Strength::Normal,
            Emphasis::FadedLine(800),
            host_lines(scenes.colors, 800),
        ),
        group_of(
            "Markdown, HTML and Mermaid boundaries"@,
            Purpose::FilledOutline,
            Strength::Normal,
            Emphasis::Full,
            document_frames(scenes.colors),
        ),
        group_of(
            "REPL table header"@,
            Purpose::FilledOutline,
            Strength::Normal,
            Emphasis::Full,
            seq![line_around(scenes.colors.canvas@, scenes.colors.focused@, 1000)],
        ),
    ]
}

/// What the ordinary border is fitted to.
pub fn normal_groups(scenes: &BoundaryScenes) -> (groups: Vec<ContactGroup>)
    requires
        scenes.is_valid(),
    ensures
        group_views(groups@) == normal_view(*scenes),
{
    reveal(normal_view);
    let groups = vec![
        group(
            "workspace and same-surface dividers",
            Purpose::Separator,
            Strength::Normal,
            Emphasis::Full,
            base_contacts(&scenes.colors),
        ),
        group(
            "dock, tab and header joins",
            Purpose::FilledOutline,
            Strength::Normal,
            Emphasis::Full,
            join_contacts(&scenes.colors),
        ),
        group(
            "inputs, chips, lists and off switches",
            Purpose::FilledOutline,
            Strength::Normal,
            Emphasis::Full,
            scenes.control_contacts(ControlKind::Control),
        ),
        group(
            "toggle group ancestor-composited frames",
            Purpose::FilledOutline,
            Strength::Normal,
            Emphasis::FadedOutline(600),
            scenes.control_contacts(ControlKind::Toggle),
        ),
        group(
            "split button inset overlay",
            Purpose::FilledOutline,
            Strength::Normal,
            Emphasis::FadedOutline(800),
            scenes.control_contacts(ControlKind::Split),
        ),
        group(
            "checkbox hover frames",
            Purpose::FilledOutline,
            Strength::Normal,
            Emphasis::FadedOutline(700),
            scenes.control_contacts(ControlKind::CheckboxHover),
        ),
        group(
            "selected tree frames",
            Purpose::FilledOutline,
            Strength::Normal,
            Emphasis::FadedOutline(400),
            scenes.control_contacts(ControlKind::SelectedTree),
        ),
        group(
            "unstriped data table rows",
            Purpose::FilledOutline,
            Strength::Normal,
            Emphasis::Full,
            scenes.control_contacts(ControlKind::Table),
        ),
        group(
            "callout frames",
            Purpose::FilledOutline,
            Strength::Normal,
            Emphasis::Full,
            scenes.control_contacts(ControlKind::Callout),
        ),
        group(
            "info banner frames",
            Purpose::FilledOutline,
            Strength::Normal,
            Emphasis::FadedOutline(500),
            scenes.control_contacts(ControlKind::Banner),
        ),
        group(
            "faded application cards and tree guides",
            Purpose::Separator,
            Strength::Normal,
            Emphasis::FadedLine(500),
            host_contacts(&scenes.colors, 500),
        ),
        group(
            "faded application cards and tree guides",
            Purpose::Separator,
            Strength::Normal,
            Emphasis::FadedLine(600),
            host_contacts(&scenes.colors, 600),
        ),
        group(
            "faded application cards and tree guides",
            Purpose::Separator,
            Strength::Normal,
            Emphasis::FadedLine(800),
            host_contacts(&scenes.colors, 800),
        ),
        group(
            "Markdown, HTML and Mermaid boundaries",
            Purpose::FilledOutline,
            Strength::Normal,
            Emphasis::Full,
            document_contacts(&scenes.colors),
        ),
        group(
            "REPL table header",
            Purpose::FilledOutline,
            Strength::Normal,
            Emphasis::Full,
            one_contact(outline(&scenes.colors.canvas, &scenes.colors.focused, 1000)),
        ),
    ];
    assert(group_views(groups@) =~= normal_view(*scenes));
    groups
}

/// What the quiet border is fitted to.
#[verifier::opaque]
pub open spec fn variant_view(scenes: BoundaryScenes) -> Seq<GroupView> {
    seq![
        group_of(
            "section and menu dividers"@,
            Purpose::Separator,
            Strength::Passive,
            Emphasis::Full,
            base_lines(scenes.colors),
        ),
        group_of(
            "toolbar and preview joins"@,
            Purpose::FilledOutline,
            Strength::Passive,
            Emphasis::Full,
            joins(scenes.colors),
        ),
        group_of(
            "elevated popup frames"@,
            Purpose::FilledOutline,
            Strength::Passive,
            Emphasis::Full,
            scenes.contacts_of(ControlKind::Popup, 4),
        ),
        group_of(
            "outlined button and input frames"@,
            Purpose::FilledOutline,
            Strength::Passive,
            Emphasis::Full,
            scenes.contacts_of(ControlKind::Outlined, 4),
        ),
        group_of(
            "disabled checkbox frames"@,
            Purpose::FilledOutline,
            Strength::Passive,
            Emphasis::Full,
            scenes.contacts_of(ControlKind::Disabled, 4),
        ),
        group_of(
            "faded footers and stable scrollbar tracks"@,
            Purpose::Separator,
            Strength::Passive,
            Emphasis::FadedLine(400),
            host_lines(scenes.colors, 400),
        ),
        group_of(
            "faded footers and stable scrollbar tracks"@,
            Purpose::Separator,
            Strength::Passive,
            Emphasis::FadedLine(600),
            host_lines(scenes.colors, 600),
        ),
    ]
}

/// What the quiet border is fitted to.
pub fn variant_groups(scenes: &BoundaryScenes) -> (groups: Vec<ContactGroup>)
    requires
        scenes.is_valid(),
    ensures
        group_views(groups@) == variant_view(*scenes),
{
    reveal(variant_view);
    let groups = vec![
        group(
            "section and menu dividers",
            Purpose::Separator,
            Strength::Passive,
            Emphasis::Full,
            base_contacts(&scenes.colors),
        ),
        group(
            "toolbar and preview joins",
            Purpose::FilledOutline,
            Strength::Passive,
            Emphasis::Full,
            join_contacts(&scenes.colors),
        ),
        group(
            "elevated popup frames",
            Purpose::FilledOutline,
            Strength::Passive,
            Emphasis::Full,
            scenes.control_contacts(ControlKind::Popup),
        ),
        group(
            "outlined button and input frames",
            Purpose::FilledOutline,
            Strength::Passive,
            Emphasis::Full,
            scenes.control_contacts(ControlKind::Outlined),
        ),
        group(
            "disabled checkbox frames",
            Purpose::FilledOutline,
            Strength::Passive,
            Emphasis::Full,
            scenes.control_contacts(ControlKind::Disabled),
        ),
        group(
            "faded footers and stable scrollbar tracks",
            Purpose::Separator,
            Strength::Passive,
            Emphasis::FadedLine(400),
            host_contacts(&scenes.colors, 400),
        ),
        group(
            "faded footers and stable scrollbar tracks",
            Purpose::Separator,
            Strength::Passive,
            Emphasis::FadedLine(600),
            host_contacts(&scenes.colors, 600),
        ),
    ];
    assert(group_views(groups@) =~= variant_view(*scenes));
    groups
}

/// A role with what its color is fitted to.
#[derive(Clone, Debug)]
pub struct BoundaryRequest {
    pub role: &'static str,
    pub group: ContactGroup,
}

/// The roles that are fitted to one group each.
#[verifier::opaque]
pub open spec fn request_view(scenes: BoundaryScenes) -> Seq<(Seq<char>, GroupView)> {
    seq![
        (
            "border.disabled"@,
            group_of(
                "disabled debugger and loading keymap inputs"@,
                Purpose::FilledOutline,
                Strength::Passive,
                Emphasis::Full,
                disabled_frames(scenes.colors),
            ),
        ),
        (
            "pane_group.border"@,
            group_of(
                "pane split and centered padding"@,
                Purpose::Separator,
                Strength::Normal,
                Emphasis::Full,
                pane_lines(scenes.colors),
            ),
        ),
        (
            "scrollbar.track.border"@,
            group_of(
                "editor vertical track edge"@,
                Purpose::FilledOutline,
                Strength::Passive,
                Emphasis::Full,
                track_edges(scenes.colors),
            ),
        ),
        (
            "scrollbar.thumb.border"@,
            group_of(
                "thumb over rendered content"@,
                Purpose::FilledOutline,
                Strength::Passive,
                Emphasis::Full,
                scrollbar_edges(scenes.colors),
            ),
        ),
        (
            "minimap.thumb.border"@,
            group_of(
                "thumb over rendered content"@,
                Purpose::FilledOutline,
                Strength::Passive,
                Emphasis::Full,
                minimap_edges(scenes.colors),
            ),
        ),
        (
            "editor.indent_guide"@,
            group_of(
                "editor indent guide"@,
                Purpose::Separator,
                Strength::Passive,
                Emphasis::Full,
                seq![line_on(scenes.colors.canvas@, 1000)],
            ),
        ),
        (
            "editor.indent_guide_active"@,
            group_of(
                "editor indent guide"@,
                Purpose::Separator,
                Strength::ActiveGuide,
                Emphasis::Full,
                seq![line_on(scenes.colors.canvas@, 1000)],
            ),
        ),
    ]
}

/// What a vector of requests holds.
pub open spec fn request_views(requests: Seq<BoundaryRequest>) -> Seq<(Seq<char>, GroupView)> {
    requests.map_values(|request: BoundaryRequest| (request.role@, request.group@))
}

fn request(role: &'static str, group: ContactGroup) -> (request: BoundaryRequest)
    ensures
        (request.role@, request.group@) == (role@, group@),
{
    BoundaryRequest { role, group }
}

/// The roles that are fitted to one group each.
pub fn boundary_requests(scenes: &BoundaryScenes) -> (requests: Vec<BoundaryRequest>)
    requires
        scenes.is_valid(),
    ensures
        request_views(requests@) == request_view(*scenes),
{
    reveal(request_view);
    let requests = vec![
        request(
            "border.disabled",
            group(
                "disabled debugger and loading keymap inputs",
                Purpose::FilledOutline,
                Strength::Passive,
                Emphasis::Full,
                disabled_contacts(&scenes.colors),
            ),
        ),
        request(
            "pane_group.border",
            group(
                "pane split and centered padding",
                Purpose::Separator,
                Strength::Normal,
                Emphasis::Full,
                pane_contacts(&scenes.colors),
            ),
        ),
        request(
            "scrollbar.track.border",
            group(
                "editor vertical track edge",
                Purpose::FilledOutline,
                Strength::Passive,
                Emphasis::Full,
                track_contacts(scenes),
            ),
        ),
        request(
            "scrollbar.thumb.border",
            group(
                "thumb over rendered content",
                Purpose::FilledOutline,
                Strength::Passive,
                Emphasis::Full,
                scrollbar_contacts(scenes),
            ),
        ),
        request(
            "minimap.thumb.border",
            group(
                "thumb over rendered content",
                Purpose::FilledOutline,
                Strength::Passive,
                Emphasis::Full,
                minimap_contacts(scenes),
            ),
        ),
        request(
            "editor.indent_guide",
            group(
                "editor indent guide",
                Purpose::Separator,
                Strength::Passive,
                Emphasis::Full,
                one_contact(separator(&scenes.colors.canvas, 1000)),
            ),
        ),
        request(
            "editor.indent_guide_active",
            group(
                "editor indent guide",
                Purpose::Separator,
                Strength::ActiveGuide,
                Emphasis::Full,
                one_contact(separator(&scenes.colors.canvas, 1000)),
            ),
        ),
    ];
    assert(request_views(requests@) =~= request_view(*scenes));
    requests
}

/// The fills on an elevated surface beside which the border of a control must show.
pub fn control_stroke_fills(scenes: &BoundaryScenes) -> (fills: Vec<String>)
    requires
        scenes.is_valid(),
    ensures
        views(fills@) == seq![
            filled_with(scenes.colors.elevated@, scenes.colors.ghost_fill@),
            filled_with(scenes.colors.elevated@, scenes.colors.ghost_hover@),
            scenes.hovers@[2]@,
            filled_with(scenes.colors.elevated@, scenes.colors.selected@),
        ],
{
    proof {
        scenes.lemma_colors_are_hex();
    }
    let colors = &scenes.colors;
    let fills = vec![
        fill(&colors.elevated, &colors.ghost_fill),
        fill(&colors.elevated, &colors.ghost_hover),
        scenes.hovers[2].clone(),
        fill(&colors.elevated, &colors.selected),
    ];
    assert(views(fills@) =~= seq![
        filled_with(colors.elevated@, colors.ghost_fill@),
        filled_with(colors.elevated@, colors.ghost_hover@),
        scenes.hovers@[2]@,
        filled_with(colors.elevated@, colors.selected@),
    ]);
    fills
}

/// The roles that boundaries fill, and the color of each: the border of controls, the
/// quiet border, the fitted colors in the order of their requests, and wrap guides
/// that are faint lines in the color of the ordinary border.
pub open spec fn boundary_table(
    control_border: Seq<char>,
    variant_border: Seq<char>,
    fits: Seq<Seq<char>>,
    guide: Seq<char>,
) -> Seq<(Seq<char>, Seq<char>)> {
    seq![
        ("border"@, control_border),
        ("border.variant"@, variant_border),
        ("border.disabled"@, fits[0]),
        ("pane_group.border"@, fits[1]),
        ("scrollbar.track.border"@, fits[2]),
        ("scrollbar.thumb.border"@, fits[3]),
        ("minimap.thumb.border"@, fits[4]),
        ("editor.indent_guide"@, fits[5]),
        ("editor.indent_guide_active"@, fits[6]),
        ("editor.wrap_guide"@, (Rgba { a: 13, ..hex_color(guide) }).hex_view()),
        ("editor.active_wrap_guide"@, (Rgba { a: 26, ..hex_color(guide) }).hex_view()),
    ]
}

/// What a vector of roles and colors holds.
pub open spec fn role_texts(roles: Seq<(&'static str, String)>) -> Seq<(Seq<char>, Seq<char>)> {
    roles.map_values(|entry: (&'static str, String)| (entry.0@, entry.1@))
}

/// The roles that boundaries fill. `guide` is the ordinary border before it was made
/// to show beside controls, and `fits` are the colors of the requests.
pub fn boundary_roles(
    control_border: &str,
    variant_border: &str,
    fits: &Vec<String>,
    guide: &str,
) -> (result: Result<Vec<(&'static str, String)>>)
    requires
        fits@.len() == 7,
    ensures
        result is Ok <==> is_hex(guide@),
        result matches Ok(roles) ==> role_texts(roles@) == boundary_table(
            control_border@,
            variant_border@,
            views(fits@),
            guide@,
        ),
        result matches Err(error) ==> error.is_invalid(invalid_hex_message(guide@)),
{
    let wrap_guide = with_alpha(guide, 13)?;
    let active_wrap_guide = with_alpha(guide, 26)?;
    let roles = vec![
        ("border", control_border.to_owned()),
        ("border.variant", variant_border.to_owned()),
        ("border.disabled", fits[0].clone()),
        ("pane_group.border", fits[1].clone()),
        ("scrollbar.track.border", fits[2].clone()),
        ("scrollbar.thumb.border", fits[3].clone()),
        ("minimap.thumb.border", fits[4].clone()),
        ("editor.indent_guide", fits[5].clone()),
        ("editor.indent_guide_active", fits[6].clone()),
        ("editor.wrap_guide", wrap_guide),
        ("editor.active_wrap_guide", active_wrap_guide),
    ];
    assert(role_texts(roles@) =~= boundary_table(
        control_border@,
        variant_border@,
        views(fits@),
        guide@,
    ));
    Ok(roles)
}

} // verus!
