//! What each role of a theme is fitted from.

use omarchy_zed_theme::map::TextMap;
use omarchy_zed_theme::palette::ResolvedPalette;
use omarchy_zed_theme::scalar::Scalar;
use omarchy_zed_theme::search::request::{
    MetricBand, ReadableForeground, Reference, RuntimeState,
};
use omarchy_zed_theme::theme::requests::{
    active_search_match, change_fill, drop_target, editor_line, element_active, element_hover, element_selected,
    focus_border, further_selection, ghost_active, ghost_hover, highlight, inactive_tab,
    mode_background, panel_guide, panel_overlay, panel_overlay_hover, player_background,
    search_match, selection, status_background, stronger_panel_guide, thumb, HighlightRole,
    InteractionBands, OverlayFit, StateFit, VisualBand,
};
use omarchy_zed_theme::theme::scenes::Surfaces;
use omarchy_zed_theme::theme::seeds::{
    ansi_seeds, status_seed, ChangeSeeds, ContentRole, StatusRole,
};
use omarchy_zed_theme::theme::style::SemanticColors;

fn scalar(value: f64) -> Scalar {
    Scalar {
        bits: value.to_bits(),
    }
}

fn band(start: f64) -> VisualBand {
    VisualBand {
        contrast: MetricBand::bounded(scalar(start), scalar(start + 0.1), scalar(start + 0.2)),
        delta_e: MetricBand::bounded(scalar(0.1), scalar(0.2), scalar(0.3)),
    }
}

fn bands() -> InteractionBands {
    InteractionBands {
        hover: band(1.0),
        active: band(2.0),
        selected: band(3.0),
        adjacent_contrast: scalar(1.03),
        adjacent_delta_e: scalar(0.015),
    }
}

fn surfaces() -> Surfaces {
    Surfaces {
        canvas: "canvas".to_owned(),
        surface: "surface".to_owned(),
        elevated: "elevated".to_owned(),
        chrome: "chrome".to_owned(),
    }
}

fn palette() -> ResolvedPalette {
    let mut colors = TextMap::new();
    for name in ["muted", "accent", "selection"] {
        colors.insert(name.to_owned(), format!("palette {name}"));
    }
    ResolvedPalette {
        mode: "dark".to_owned(),
        colors,
        provenance: TextMap::new(),
    }
}

fn semantic() -> SemanticColors {
    let color = |name: &str| format!("semantic {name}");
    SemanticColors {
        primary: color("primary"),
        secondary: color("secondary"),
        placeholder: color("placeholder"),
        disabled: color("disabled"),
        icon_muted: color("icon_muted"),
        icon_placeholder: color("icon_placeholder"),
        icon_disabled: color("icon_disabled"),
        accent: color("accent"),
        structural: color("structural"),
        passive: color("passive"),
        red: color("red"),
        green: color("green"),
        blue: color("blue"),
        yellow: color("yellow"),
        orange: color("orange"),
        cyan: color("cyan"),
        magenta: color("magenta"),
    }
}

fn reference(color: &str) -> Reference {
    Reference {
        color: color.to_owned(),
        contrast: scalar(4.5),
        delta_e: scalar(0.5),
    }
}

fn text() -> ReadableForeground {
    ReadableForeground {
        color: "text".to_owned(),
        contrast: scalar(4.5),
    }
}

fn runtime() -> RuntimeState {
    RuntimeState {
        opacity: scalar(0.5),
        contrast: scalar(1.1),
        delta_e: scalar(0.02),
    }
}

fn names(references: &[Reference]) -> Vec<&str> {
    references
        .iter()
        .map(|reference| reference.color.as_str())
        .collect()
}

fn assert_state(fit: &StateFit, seed: &str, backgrounds: &[&str], least: f64, apart: &[&str]) {
    assert_eq!(fit.seed, seed);
    assert_eq!(fit.request.backgrounds, backgrounds);
    assert_eq!(fit.request.contrast.minimum, scalar(least));
    assert_eq!(names(&fit.request.references), apart);
}

fn assert_overlay(fit: &OverlayFit, seed: &str, backgrounds: &[&str], least: f64, apart: &[&str]) {
    assert_eq!(fit.seed, seed);
    assert_eq!(fit.request.backgrounds, backgrounds);
    assert_eq!(fit.request.contrast.minimum, scalar(least));
    assert_eq!(names(&fit.request.rendered_references), apart);
}

#[test]
fn states_stand_apart_from_the_states_before_them() {
    let (surfaces, bands) = (surfaces(), bands());
    let readable = reference("readable");
    assert_state(
        &inactive_tab(&surfaces, band(5.0), &readable),
        "chrome",
        &["canvas"],
        5.0,
        &["readable"],
    );
    assert_state(
        &panel_overlay(&surfaces, band(5.0), &readable),
        "elevated",
        &["surface"],
        5.0,
        &["readable"],
    );
    let fit = panel_overlay_hover(&surfaces, bands, "overlay", &readable);
    assert_state(&fit, "overlay", &["surface"], 1.0, &["overlay", "readable"]);
    assert_eq!(fit.request.references[0].contrast, scalar(1.03));
    assert_eq!(fit.request.references[0].delta_e, scalar(0.015));
    assert_eq!(fit.request.references[1].contrast, scalar(4.5));
    let palette = palette();
    assert_state(
        &panel_guide(&palette, &surfaces, band(5.0)),
        "palette muted",
        &["surface"],
        5.0,
        &[],
    );
    assert_state(
        &stronger_panel_guide(&palette, &surfaces, band(5.0), bands, "guide"),
        "palette accent",
        &["surface"],
        5.0,
        &["guide"],
    );
}

#[test]
fn states_lie_on_their_own_surfaces() {
    let (surfaces, bands, semantic) = (surfaces(), bands(), semantic());
    let backgrounds = vec!["a".to_owned(), "b".to_owned()];
    assert_state(
        &focus_border(&backgrounds, &semantic, band(5.0), bands),
        "semantic accent",
        &["a", "b"],
        5.0,
        &["semantic structural"],
    );
    let fit = status_background(
        "seed",
        &surfaces,
        &semantic,
        bands,
        scalar(4.5),
        scalar(0.1),
        scalar(0.04),
    );
    assert_state(
        &fit,
        "seed",
        &["surface"],
        3.0,
        &["semantic primary", "semantic structural"],
    );
    assert_eq!(fit.request.minimum_chroma, scalar(0.04));
    assert_state(
        &mode_background("seed", &surfaces, bands),
        "seed",
        &["chrome"],
        3.0,
        &[],
    );
    let fit = player_background("seed", &surfaces, bands, &reference("cursor"));
    assert_state(&fit, "seed", &["canvas"], 1.0, &["cursor"]);
    assert_eq!(fit.request.contrast.preferred, None);
    assert_eq!(fit.request.delta_e.maximum, None);
}

#[test]
fn controls_stand_apart_from_the_controls_before_them() {
    let (surfaces, bands, text) = (surfaces(), bands(), text());
    let bases = vec!["a".to_owned(), "b".to_owned()];
    let fit = element_hover(&surfaces, &bases, bands, &text, runtime());
    assert_overlay(&fit, "surface", &["a", "b"], 1.0, &[]);
    assert_eq!(fit.request.readable_foregrounds[0].color, "text");
    assert_eq!(fit.request.runtime_state.unwrap().opacity, scalar(0.5));
    let fit = element_active(
        &surfaces,
        &bases,
        bands,
        &text,
        runtime(),
        "hover",
        "faint hover",
        scalar(0.01),
    );
    assert_overlay(&fit, "surface", &["a", "b"], 2.0, &["hover"]);
    let fainter = &fit.request.runtime_rendered_references[0];
    assert_eq!(fainter.color, "faint hover");
    assert_eq!(fainter.contrast, scalar(1.03));
    assert_eq!(fainter.base_step, scalar(0.01));
    let fit = ghost_hover(&surfaces, &bases, bands, &text);
    assert_overlay(&fit, "canvas", &["a", "b"], 1.0, &[]);
    assert!(fit.request.runtime_state.is_none());
    let fit = ghost_active(&surfaces, &bases, bands, &text, "hover");
    assert_overlay(&fit, "canvas", &["a", "b"], 2.0, &["hover"]);
    let fit = element_selected(
        &palette(),
        &bases,
        bands,
        &text,
        runtime(),
        "element",
        "ghost",
    );
    assert_overlay(
        &fit,
        "palette selection",
        &["a", "b"],
        3.0,
        &["element", "ghost"],
    );
}

#[test]
fn editor_fills_keep_text_readable() {
    let (surfaces, bands, text) = (surfaces(), bands(), text());
    let bases = vec!["a".to_owned(), "b".to_owned()];
    let weaker = reference("weaker");
    let fit = editor_line("seed", &surfaces, band(5.0), &text, Some(&weaker));
    assert_overlay(&fit, "seed", &["canvas"], 5.0, &["weaker"]);
    let fit = editor_line("seed", &surfaces, band(5.0), &text, None);
    assert_overlay(&fit, "seed", &["canvas"], 5.0, &[]);
    let fit = highlight("seed", &bases, band(5.0), &text, Some(&weaker));
    assert_overlay(&fit, "seed", &["a", "b"], 5.0, &["weaker"]);
    assert_eq!(fit.request.contrast.maximum, None);
    assert_eq!(fit.request.readable_foregrounds.len(), 1);
    let fit = change_fill("seed", &bases, band(5.0), None, true);
    assert_overlay(&fit, "seed", &["a", "b"], 5.0, &[]);
    assert!(fit.request.readable_foregrounds.is_empty());
    assert!(fit.request.prefer_source_fidelity);
    let fit = change_fill("seed", &bases, band(5.0), Some(&text), false);
    assert_eq!(fit.request.readable_foregrounds[0].contrast, scalar(4.5));
    assert!(!fit.request.prefer_source_fidelity);
    let more = vec!["c".to_owned()];
    let fit = selection(
        "seed",
        &bases,
        &more,
        band(5.0),
        &text,
        runtime(),
        vec![weaker],
    );
    assert_overlay(&fit, "seed", &["a", "b"], 5.0, &["weaker"]);
    assert_eq!(fit.request.readability_backgrounds, ["c"]);
    assert_eq!(fit.request.contrast.preferred, Some(scalar(5.1)));
    let fit = further_selection(
        "cursor",
        &bases,
        &more,
        bands,
        &text,
        runtime(),
        Vec::new(),
    );
    assert_overlay(&fit, "cursor", &["a", "b"], 3.0, &[]);
    assert_eq!(fit.request.contrast.preferred, None);
}

#[test]
fn thumbs_and_drop_targets_are_painted_on_panels() {
    let (surfaces, bands, semantic) = (surfaces(), bands(), semantic());
    let bases = vec!["a".to_owned()];
    assert_overlay(
        &drop_target(&semantic, &surfaces, bands),
        "semantic accent",
        &["surface"],
        3.0,
        &[],
    );
    let fit = thumb(&semantic, &bases, band(5.0), bands, None);
    assert_overlay(&fit, "semantic primary", &["a"], 5.0, &[]);
    let fit = thumb(&semantic, &bases, band(5.0), bands, Some("weaker"));
    assert_overlay(&fit, "semantic primary", &["a"], 5.0, &["weaker"]);
}

#[test]
fn faint_content_is_limited_by_less_faint_content() {
    assert_eq!(ContentRole::Secondary.seed(), "muted");
    assert_eq!(ContentRole::Disabled.seed(), "dark_foreground");
    assert_eq!(ContentRole::IconMuted.seed(), "muted");
    assert_eq!(ContentRole::Secondary.ceiling(), None);
    assert_eq!(ContentRole::IconMuted.ceiling(), None);
    assert_eq!(
        ContentRole::Placeholder.ceiling(),
        Some(ContentRole::Secondary)
    );
    assert_eq!(
        ContentRole::Disabled.ceiling(),
        Some(ContentRole::Placeholder)
    );
    assert_eq!(
        ContentRole::IconPlaceholder.ceiling(),
        Some(ContentRole::IconMuted)
    );
    assert_eq!(
        ContentRole::IconDisabled.ceiling(),
        Some(ContentRole::IconPlaceholder)
    );
}

#[test]
fn statuses_start_from_changes_or_from_the_theme() {
    let semantic = semantic();
    let changes = ChangeSeeds {
        added: "added".to_owned(),
        deleted: "deleted".to_owned(),
        modified: "modified".to_owned(),
    };
    for (role, seed) in [
        (StatusRole::Created, "added"),
        (StatusRole::Deleted, "deleted"),
        (StatusRole::Warning, "modified"),
        (StatusRole::Hidden, "semantic disabled"),
        (StatusRole::Hint, "semantic cyan"),
        (StatusRole::Info, "semantic accent"),
        (StatusRole::Quiet, "semantic secondary"),
    ] {
        assert_eq!(status_seed(role, &semantic, &changes), seed);
    }
}

#[test]
fn bright_terminal_colors_come_behind_the_normal_ones() {
    let keys = |number: usize| {
        let (dim, normal, bright) = ansi_seeds(number);
        [dim, normal, bright]
    };
    assert_eq!(keys(0), ["color0", "color0", "color8"]);
    assert_eq!(keys(2), ["color2", "color2", "color10"]);
    assert_eq!(keys(7), ["color7", "color7", "color15"]);
}

#[test]
fn search_matches_are_yellow_and_the_active_one_is_an_accent() {
    let (semantic, text) = (semantic(), text());
    let bases = vec!["a".to_owned()];
    let fit = search_match(&semantic, &bases, band(5.0), &text);
    assert_overlay(&fit, "semantic yellow", &["a"], 5.0, &[]);
    let found = reference("found");
    let fit = active_search_match(&semantic, &bases, band(5.0), &text, Some(&found));
    assert_overlay(&fit, "semantic accent", &["a"], 5.0, &["found"]);
    let fit = active_search_match(&semantic, &bases, band(5.0), &text, None);
    assert_overlay(&fit, "semantic accent", &["a"], 5.0, &[]);
    for (role, seed) in [
        (HighlightRole::DocumentRead, "semantic accent"),
        (HighlightRole::DocumentWrite, "semantic orange"),
        (HighlightRole::DocumentBracket, "semantic cyan"),
        (HighlightRole::Yank, "semantic yellow"),
    ] {
        assert_eq!(role.seed(&semantic), seed);
    }
}
