//! What the boundaries of a theme meet.

use omarchy_zed_theme::color::render_layers;
use omarchy_zed_theme::json::Json;
use omarchy_zed_theme::map::TextMap;
use omarchy_zed_theme::theme::boundaries::{
    faded_roles, BoundaryColors, BoundaryScenes, Contact, ControlKind, SCENE_ROLES,
};
use omarchy_zed_theme::theme::boundary_groups::{
    boundary_requests, boundary_roles, control_stroke_fills, normal_groups, variant_groups,
    Emphasis, Purpose, Strength,
};
use omarchy_zed_theme::ErrorKind;

fn style() -> TextMap<Json> {
    let mut style = TextMap::new();
    for (role, number) in SCENE_ROLES.iter().zip(0x10..) {
        let alpha = if number < 0x15 { "" } else { "80" };
        style.insert(
            (*role).to_owned(),
            Json::Text(format!("#{number:02x}{number:02x}{number:02x}{alpha}")),
        );
    }
    style
}

fn scenes() -> BoundaryScenes {
    let colors = BoundaryColors::read(&style()).unwrap();
    let hovers = colors.selected_fills();
    BoundaryScenes {
        colors,
        fades: (0..9).map(|number| format!("#ffffff{number:02x}")).collect(),
        hovers,
    }
}

fn parts(contact: &Contact) -> (&str, &str, &str, u16) {
    (
        &contact.under,
        &contact.outside,
        &contact.inside,
        contact.opacity,
    )
}

#[test]
fn boundary_colors_come_from_the_style() {
    let colors = BoundaryColors::read(&style()).unwrap();
    assert_eq!(colors.canvas, "#101010");
    assert_eq!(colors.inactive, "#141414");
    assert_eq!(colors.selected, "#1d1d1d80");
    assert_eq!(colors.minimap_active, "#2b2b2b80");
    assert_eq!(
        colors.hosts(),
        ["#101010", "#111111", "#121212", "#131313"]
    );
}

#[test]
fn missing_roles_are_named_in_the_error() {
    let mut incomplete = style();
    incomplete.remove("element.hover");
    incomplete.remove("error");
    let error = BoundaryColors::read(&incomplete).err().unwrap();
    assert_eq!(error.kind(), ErrorKind::InvalidInput);
    assert_eq!(
        error.message(),
        "boundary scene requires generated role element.hover"
    );

    let mut unreadable = style();
    unreadable.insert("text".into(), Json::Text("red".into()));
    assert_eq!(
        BoundaryColors::read(&unreadable).err().unwrap().message(),
        "invalid hex color: \"red\""
    );
}

#[test]
fn faded_overlays_depend_on_the_mode_only_for_switches() {
    let dark = faded_roles(true);
    let light = faded_roles(false);
    assert_eq!(dark.len(), 9);
    assert_eq!(dark[0], ("text", 50));
    assert_eq!(light[0], ("text", 75));
    assert_eq!(dark[1..], light[1..]);
    assert_eq!(dark[7], ("error", 80));
    assert_eq!(dark[8], ("info.background", 500));
}

#[test]
fn outlines_are_drawn_over_their_fill_and_frames_over_their_host() {
    let scenes = scenes();
    let fill = render_layers("#101010", &["#17171780"]).unwrap();
    let toggles = scenes.control_contacts(ControlKind::Toggle);
    let splits = scenes.control_contacts(ControlKind::Split);
    assert_eq!(toggles.len(), 28);
    assert_eq!(splits.len(), 28);
    assert_eq!(parts(&toggles[0]), ("#101010", "#101010", &fill[..], 600));
    assert_eq!(parts(&splits[0]), (&fill[..], "#101010", &fill[..], 800));
    let popups = scenes.control_contacts(ControlKind::Popup);
    assert_eq!(parts(&popups[3]), ("#121212", "#131313", "#121212", 1000));
}

#[test]
fn every_kind_of_control_meets_every_host() {
    let scenes = scenes();
    for (kind, count) in [
        (ControlKind::Popup, 1),
        (ControlKind::Control, 11),
        (ControlKind::Outlined, 6),
        (ControlKind::Disabled, 1),
        (ControlKind::Toggle, 7),
        (ControlKind::Split, 7),
        (ControlKind::CheckboxHover, 5),
        (ControlKind::SelectedTree, 2),
        (ControlKind::Table, 1),
        (ControlKind::Callout, 4),
        (ControlKind::Banner, 1),
    ] {
        let contacts = scenes.control_contacts(kind);
        assert_eq!(contacts.len(), 4 * count, "{kind:?}");
        for (index, host) in scenes.colors.hosts().iter().enumerate() {
            for contact in &contacts[index * count..(index + 1) * count] {
                assert_eq!(&contact.outside, host);
            }
        }
    }
}

#[test]
fn borders_are_fitted_to_their_groups() {
    let scenes = scenes();
    let normal = normal_groups(&scenes);
    assert_eq!(normal.len(), 15);
    assert_eq!(normal[0].label, "workspace and same-surface dividers");
    assert_eq!(normal[0].purpose, Purpose::Separator);
    assert_eq!(normal[0].contacts.len(), 5);
    assert_eq!(
        parts(&normal[0].contacts[4]),
        ("#141414", "#141414", "#141414", 1000)
    );
    assert_eq!(normal[1].contacts.len(), 4);
    assert_eq!(
        parts(&normal[1].contacts[2]),
        ("#141414", "#131313", "#141414", 1000)
    );
    assert_eq!(normal[3].emphasis, Emphasis::FadedOutline(600));
    assert_eq!(normal[12].emphasis, Emphasis::FadedLine(800));
    assert_eq!(normal[12].contacts[0].opacity, 800);
    assert_eq!(normal[13].contacts.len(), 12);
    assert_eq!(normal[14].label, "REPL table header");
    assert!(normal
        .iter()
        .all(|group| group.strength == Strength::Normal));

    let variant = variant_groups(&scenes);
    assert_eq!(variant.len(), 7);
    assert_eq!(variant[2].label, "elevated popup frames");
    assert_eq!(variant[6].emphasis, Emphasis::FadedLine(600));
    assert!(variant
        .iter()
        .all(|group| group.strength == Strength::Passive));
}

#[test]
fn single_roles_are_fitted_to_one_group() {
    let scenes = scenes();
    let requests = boundary_requests(&scenes);
    let roles = requests
        .iter()
        .map(|request| (request.role, request.group.contacts.len()))
        .collect::<Vec<_>>();
    assert_eq!(
        roles,
        [
            ("border.disabled", 2),
            ("pane_group.border", 3),
            ("scrollbar.track.border", 1),
            ("scrollbar.thumb.border", 3),
            ("minimap.thumb.border", 6),
            ("editor.indent_guide", 1),
            ("editor.indent_guide_active", 1),
        ]
    );
    assert_eq!(requests[6].group.strength, Strength::ActiveGuide);
    let track = render_layers("#101010", &["#24242480"]).unwrap();
    assert_eq!(requests[3].group.contacts[0].outside, track);
}

#[test]
fn control_borders_show_beside_four_fills() {
    let scenes = scenes();
    let fills = control_stroke_fills(&scenes);
    assert_eq!(fills.len(), 4);
    assert_eq!(
        fills[0],
        render_layers("#121212", &["#17171780"]).unwrap()
    );
    assert_eq!(fills[2], scenes.hovers[2]);
    assert_eq!(
        fills[3],
        render_layers("#121212", &["#1d1d1d80"]).unwrap()
    );
}

#[test]
fn fitted_colors_fill_their_roles() {
    let fits = (0..7).map(|number| format!("#00000{number}")).collect();
    let roles = boundary_roles("#aaaaaa", "#bbbbbb", &fits, "#cccccc").unwrap();
    assert_eq!(roles.len(), 11);
    assert_eq!(roles[0], ("border", "#aaaaaa".to_owned()));
    assert_eq!(roles[1], ("border.variant", "#bbbbbb".to_owned()));
    assert_eq!(roles[2], ("border.disabled", "#000000".to_owned()));
    assert_eq!(
        roles[8],
        ("editor.indent_guide_active", "#000006".to_owned())
    );
    assert_eq!(roles[9], ("editor.wrap_guide", "#cccccc0d".to_owned()));
    assert_eq!(
        roles[10],
        ("editor.active_wrap_guide", "#cccccc1a".to_owned())
    );
    assert!(boundary_roles("#aaaaaa", "#bbbbbb", &fits, "gray").is_err());
}
