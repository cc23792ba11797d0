//! Assembled themes, their documents and the choices behind their colors.

use omarchy_zed_theme::constants::{
    CANONICAL_COLOR_KEYS, SCHEMA_URL, STATUS_NAMES, THEME_NAME, VIM_FIELDS,
};
use omarchy_zed_theme::json::{get_list, get_object, get_text, Json};
use omarchy_zed_theme::json_bytes::json_bytes;
use omarchy_zed_theme::json_value::READ_DEPTH;
use omarchy_zed_theme::map::TextMap;
use omarchy_zed_theme::palette::{Provenance, ResolvedPalette};
use omarchy_zed_theme::scalar::Scalar;
use omarchy_zed_theme::syntax::policy::capture_policies;
use omarchy_zed_theme::syntax::SyntaxStyle;
use omarchy_zed_theme::theme::assembly::{assemble_theme, PlayerColors, ThemeParts};
use omarchy_zed_theme::theme::borders::{crosses_surface, edge, lowest, pairings};
use omarchy_zed_theme::theme::choices::{
    accent_seeds, choose_surface, chrome_separates_active_tab, contrasts_satisfy, is_dark_mode,
    least_penalty, minimum, mode_seeds, next_terminal_seed, player_seeds, stays_readable,
    AuthoredSurface, Side, SurfaceChoice, SurfaceNeed, TerminalSeed,
};
use omarchy_zed_theme::theme::document::validate_theme_structure;
use omarchy_zed_theme::theme::roles::STYLE_ROLES;
use omarchy_zed_theme::theme::scenes::{
    cursor_backgrounds, editor_bases, interaction_bases, render_each, render_on_bases,
    render_with_bounded_generic_highlights, semantic_bases, status_foreground_backgrounds,
    syntax_contexts, terminal_backgrounds, text_bases, ui_backgrounds, unique, unique_of_all,
    EditorLines, Surfaces,
};
use omarchy_zed_theme::theme::style::{
    DiffLayers, ModeColors, SemanticColors, StatusColors, StatusSet, StyleColors, TerminalColors,
    Triplet, VersionControlColors, VimColors,
};
use omarchy_zed_theme::ErrorKind;

fn opaque(number: u32) -> String {
    format!("#{number:06x}")
}

fn overlay(number: u32) -> String {
    format!("#{number:06x}80")
}

fn triplet(number: u32) -> Triplet {
    Triplet {
        dim: opaque(number),
        normal: opaque(number + 1),
        bright: opaque(number + 2),
    }
}

fn mode(number: u32) -> ModeColors {
    ModeColors {
        foreground: opaque(number),
        background: opaque(number + 1),
    }
}

fn status(number: u32) -> StatusColors {
    StatusColors {
        foreground: opaque(number),
        background: opaque(number + 1),
        border: opaque(number + 2),
    }
}

fn semantic_colors() -> SemanticColors {
    SemanticColors {
        primary: opaque(1000),
        secondary: opaque(1001),
        placeholder: opaque(1002),
        disabled: opaque(1003),
        icon_muted: opaque(1004),
        icon_placeholder: opaque(1005),
        icon_disabled: opaque(1006),
        accent: opaque(1007),
        structural: opaque(1008),
        passive: opaque(1009),
        red: opaque(1010),
        green: opaque(1011),
        blue: opaque(1012),
        yellow: opaque(1013),
        orange: opaque(1014),
        cyan: opaque(1015),
        magenta: opaque(1016),
    }
}

fn style_colors() -> StyleColors {
    StyleColors {
        canvas: opaque(1),
        surface: opaque(2),
        elevated: opaque(3),
        chrome: opaque(4),
        semantic: semantic_colors(),
        content_accent: opaque(5),
        focus_border: opaque(6),
        element_hover: overlay(7),
        element_active: overlay(8),
        element_selected: overlay(9),
        ghost_hover: overlay(10),
        ghost_active: overlay(11),
        tab_inactive: opaque(12),
        panel_overlay: opaque(13),
        panel_overlay_hover: opaque(14),
        panel_guide: opaque(15),
        panel_guide_hover: opaque(16),
        panel_guide_active: opaque(17),
        drop_target: overlay(18),
        drop_target_border: opaque(19),
        search_match: overlay(20),
        search_active: overlay(21),
        thumb: overlay(22),
        thumb_hover: overlay(23),
        thumb_active: overlay(24),
        track_border: opaque(25),
        editor_primary: opaque(26),
        editor_active_line: overlay(27),
        editor_highlighted_line: overlay(28),
        debugger_active: overlay(29),
        line_number: opaque(30),
        active_line_number: opaque(31),
        hover_line_number: opaque(32),
        invisible: opaque(33),
        indent_guide: opaque(34),
        indent_guide_active: opaque(35),
        document_read: overlay(36),
        document_write: overlay(37),
        document_bracket: overlay(38),
        diff: DiffLayers {
            added_line: overlay(39),
            deleted_line: overlay(40),
            added_hollow: overlay(41),
            deleted_hollow: overlay(42),
            added_border: overlay(43),
            deleted_border: overlay(44),
        },
        terminal: TerminalColors {
            foreground: triplet(45),
            black: triplet(48),
            red: triplet(51),
            green: triplet(54),
            yellow: triplet(57),
            blue: triplet(60),
            magenta: triplet(63),
            cyan: triplet(66),
            white: triplet(69),
        },
        version_control: VersionControlColors {
            added: opaque(72),
            deleted: opaque(73),
            modified: opaque(74),
            word_added: overlay(75),
            word_deleted: overlay(76),
            conflict_ours: overlay(77),
            conflict_theirs: overlay(78),
        },
        vim: VimColors {
            yank: overlay(79),
            jump_label: opaque(80),
            normal: mode(81),
            insert: mode(83),
            replace: mode(85),
            visual: mode(87),
            visual_line: mode(89),
            visual_block: mode(91),
            helix_normal: mode(93),
            helix_select: mode(95),
        },
        statuses: StatusSet {
            created: status(97),
            deleted: status(100),
            warning: status(103),
            info: status(106),
            predictive: status(109),
            hint: status(112),
            hidden: status(115),
            unreachable: status(118),
            ignored_background: opaque(121),
            ignored_border: opaque(122),
        },
    }
}

fn parts() -> ThemeParts {
    ThemeParts {
        mode: "dark".into(),
        colors: style_colors(),
        accents: (2000..2012).map(opaque).collect(),
        players: (0..8)
            .map(|index| PlayerColors {
                cursor: opaque(3000 + index),
                background: opaque(3100 + index),
                selection: overlay(3200 + index),
            })
            .collect(),
        syntax: capture_policies()
            .iter()
            .zip(4000..)
            .map(|(policy, number)| SyntaxStyle {
                capture: policy.capture,
                color: opaque(number),
                font_style: policy.capture.starts_with("comment").then_some("italic"),
                font_weight: (policy.capture == "keyword").then_some(600),
            })
            .collect(),
    }
}

fn text(value: &str) -> Json {
    Json::Text(value.into())
}

fn object(fields: Vec<(&str, Json)>) -> Json {
    let mut object = TextMap::new();
    for (key, value) in fields {
        object.insert(key.into(), value);
    }
    Json::Object(object)
}

fn fields(value: Json) -> TextMap<Json> {
    match value {
        Json::Object(fields) => fields,
        _ => panic!("not an object"),
    }
}

fn edit_root(edit: &dyn Fn(&mut TextMap<Json>)) -> Json {
    let mut root = fields(assemble_theme(&parts()).unwrap());
    edit(&mut root);
    Json::Object(root)
}

fn edit_theme(edit: &dyn Fn(&mut TextMap<Json>)) -> Json {
    edit_root(&|root| {
        let mut themes = match root.remove("themes") {
            Some(Json::List(themes)) => themes,
            _ => panic!("no themes"),
        };
        let mut theme = fields(themes.pop().unwrap());
        edit(&mut theme);
        root.insert("themes".into(), Json::List(vec![Json::Object(theme)]));
    })
}

fn edit_style(edit: &dyn Fn(&mut TextMap<Json>)) -> Json {
    edit_theme(&|theme| {
        let mut style = fields(theme.remove("style").unwrap());
        edit(&mut style);
        theme.insert("style".into(), Json::Object(style));
    })
}

fn with_style<T>(document: &Json, read: &dyn Fn(&TextMap<Json>) -> T) -> T {
    let root = document.as_object().unwrap();
    let themes = get_list(root, "themes").unwrap();
    let theme = themes[0].as_object().unwrap();
    read(get_object(theme, "style").unwrap())
}

fn role(document: &Json, name: &str) -> String {
    with_style(document, &|style| get_text(style, name).unwrap().to_owned())
}

fn refusal(document: &Json) -> String {
    let error = validate_theme_structure(document).unwrap_err();
    assert_eq!(error.kind(), ErrorKind::InvalidInput);
    error.message()
}

#[test]
fn structural_validation_rejects_incomplete_document_envelopes() {
    for document in [
        object(vec![]),
        object(vec![
            ("$schema", text(SCHEMA_URL)),
            ("name", text(THEME_NAME)),
            ("author", text("APS")),
            ("themes", Json::List(vec![])),
        ]),
        object(vec![
            ("$schema", text(SCHEMA_URL)),
            ("name", text(THEME_NAME)),
            ("author", text("someone else")),
            (
                "themes",
                Json::List(vec![object(vec![
                    ("name", text(THEME_NAME)),
                    ("appearance", text("dark")),
                    ("style", object(vec![])),
                ])]),
            ),
        ]),
    ] {
        assert_eq!(
            validate_theme_structure(&document).unwrap_err().kind(),
            ErrorKind::InvalidInput
        );
    }
}

#[test]
fn an_assembled_theme_is_valid() {
    let document = assemble_theme(&parts()).unwrap();
    assert!(validate_theme_structure(&document).is_ok());
    let root = document.as_object().unwrap();
    assert_eq!(root.len(), 4);
    assert_eq!(get_text(root, "$schema"), Some(SCHEMA_URL));
    assert_eq!(get_text(root, "name"), Some(THEME_NAME));
    assert_eq!(get_text(root, "author"), Some("APS"));
    let themes = get_list(root, "themes").unwrap();
    assert_eq!(themes.len(), 1);
    let theme = themes[0].as_object().unwrap();
    assert_eq!(theme.len(), 3);
    assert_eq!(get_text(theme, "appearance"), Some("dark"));
    let style = get_object(theme, "style").unwrap();
    assert_eq!(style.len(), 189);
    assert_eq!(get_text(style, "background.appearance"), Some("opaque"));
    for name in STYLE_ROLES {
        assert!(get_text(style, name).is_some(), "{name} has no color");
    }
    for name in VIM_FIELDS {
        assert!(style.contains_key(name), "{name} is missing");
    }
    for name in STATUS_NAMES {
        assert!(style.contains_key(&format!("{name}.border")));
    }
}

#[test]
fn light_themes_say_so() {
    let document = assemble_theme(&ThemeParts {
        mode: "light".into(),
        ..parts()
    })
    .unwrap();
    assert!(validate_theme_structure(&document).is_ok());
    let root = document.as_object().unwrap();
    let theme = get_list(root, "themes").unwrap()[0].as_object().unwrap();
    assert_eq!(get_text(theme, "appearance"), Some("light"));
}

#[test]
fn every_role_takes_its_color() {
    let document = assemble_theme(&parts()).unwrap();
    for (name, color) in [
        ("editor.background", opaque(1)),
        ("toolbar.background", opaque(1)),
        ("terminal.background", opaque(1)),
        ("panel.background", opaque(2)),
        ("surface.background", opaque(2)),
        ("elevated_surface.background", opaque(3)),
        ("background", opaque(4)),
        ("title_bar.inactive_background", opaque(4)),
        ("editor.subheader.background", opaque(4)),
        ("link_text.hover", opaque(5)),
        ("pane.focused_border", opaque(6)),
        ("element.hover", overlay(7)),
        ("ghost_element.selected", overlay(9)),
        ("element.selection_background", overlay(9)),
        ("drop_target.border", opaque(19)),
        ("minimap.thumb.hover_background", overlay(23)),
        ("editor.foreground", opaque(26)),
        ("editor.highlighted_line.background", overlay(28)),
        ("editor.document_highlight.read_background", overlay(36)),
        ("editor.diff_hunk.added.background", overlay(39)),
        ("version_control.word_added", overlay(75)),
        ("vim.yank.background", overlay(79)),
        ("vim.normal.background", opaque(82)),
        ("text", opaque(1000)),
        ("icon", opaque(1000)),
        ("version_control.ignored", opaque(1001)),
        ("border", opaque(1008)),
        ("border.disabled", opaque(1009)),
        ("version_control.renamed", opaque(1012)),
        ("version_control.conflict", opaque(1014)),
        ("border.transparent", "#00000000".into()),
        ("scrollbar.track.background", "#00000000".into()),
    ] {
        assert_eq!(role(&document, name), color, "{name}");
    }
}

#[test]
fn wrap_guides_are_faint_structural_lines() {
    let document = assemble_theme(&parts()).unwrap();
    assert_eq!(
        role(&document, "editor.wrap_guide"),
        format!("{}0d", opaque(1008))
    );
    assert_eq!(
        role(&document, "editor.active_wrap_guide"),
        format!("{}1a", opaque(1008))
    );
}

#[test]
fn statuses_that_mean_the_same_look_the_same() {
    let document = assemble_theme(&parts()).unwrap();
    for (first, second) in [
        ("created", "success"),
        ("deleted", "error"),
        ("conflict", "modified"),
        ("conflict", "warning"),
        ("info", "renamed"),
    ] {
        for suffix in ["", ".background", ".border"] {
            assert_eq!(
                role(&document, &format!("{first}{suffix}")),
                role(&document, &format!("{second}{suffix}"))
            );
        }
    }
    assert_eq!(role(&document, "created"), opaque(97));
    assert_eq!(role(&document, "created.background"), opaque(98));
    assert_eq!(role(&document, "created.border"), opaque(99));
    assert_eq!(role(&document, "ignored"), role(&document, "hidden"));
}

#[test]
fn overlays_stay_translucent() {
    let document = assemble_theme(&parts()).unwrap();
    for name in [
        "drop_target.background",
        "search.active_match_background",
        "scrollbar.thumb.active_background",
        "editor.diff_hunk.deleted.hollow_border",
        "version_control.conflict_marker.theirs",
    ] {
        assert_eq!(role(&document, name).len(), 9, "{name}");
    }
    assert_eq!(role(&document, "drop_target.border").len(), 7);
}

#[test]
fn the_same_parts_make_the_same_theme() {
    let first = assemble_theme(&parts()).unwrap();
    let second = assemble_theme(&parts()).unwrap();
    for name in STYLE_ROLES {
        assert_eq!(role(&first, name), role(&second, name));
    }
}

#[test]
fn captures_keep_their_font() {
    let document = assemble_theme(&parts()).unwrap();
    with_style(&document, &|style| {
        let syntax = get_object(style, "syntax").unwrap();
        assert_eq!(syntax.len(), capture_policies().len());
        let comment = get_object(syntax, "comment").unwrap();
        assert_eq!(get_text(comment, "font_style"), Some("italic"));
        assert!(!comment.contains_key("font_weight"));
        let keyword = get_object(syntax, "keyword").unwrap();
        assert!(matches!(
            keyword.get("font_weight"),
            Some(Json::Number(600))
        ));
        assert!(!keyword.contains_key("font_style"));
    });
}

#[test]
fn accents_and_players_keep_their_order() {
    let document = assemble_theme(&parts()).unwrap();
    with_style(&document, &|style| {
        let accents = get_list(style, "accents").unwrap();
        assert_eq!(accents.len(), 12);
        assert_eq!(accents[11].as_str(), Some(opaque(2011).as_str()));
        let players = get_list(style, "players").unwrap();
        assert_eq!(players.len(), 8);
        let last = players[7].as_object().unwrap();
        assert_eq!(last.len(), 3);
        assert_eq!(get_text(last, "cursor"), Some(opaque(3007).as_str()));
        assert_eq!(get_text(last, "background"), Some(opaque(3107).as_str()));
        assert_eq!(get_text(last, "selection"), Some(overlay(3207).as_str()));
    });
}

#[test]
fn colors_of_the_wrong_kind_are_refused() {
    let mut translucent = parts();
    translucent.colors.canvas = overlay(1);
    let error = assemble_theme(&translucent).err().unwrap();
    assert_eq!(error.kind(), ErrorKind::InvalidInput);
    assert_eq!(
        error.message(),
        "opaque token received translucent color #00000180"
    );

    let mut solid = parts();
    solid.colors.vim.yank = opaque(79);
    assert_eq!(
        assemble_theme(&solid).err().unwrap().message(),
        "overlay token received opaque color #00004f"
    );

    let mut unreadable = parts();
    unreadable.colors.semantic.structural = "gray".into();
    assert_eq!(
        assemble_theme(&unreadable).err().unwrap().message(),
        "invalid hex color: \"gray\""
    );
}

#[test]
fn damaged_documents_are_refused() {
    let players = |count: u32| {
        Json::List(
            (0..count)
                .map(|_| {
                    object(vec![
                        ("cursor", text("#000000")),
                        ("background", text("#000000")),
                        ("selection", text("#000000")),
                    ])
                })
                .collect(),
        )
    };
    for (document, message) in [
        (
            edit_root(&|root| {
                root.insert("extra".into(), Json::Null);
            }),
            "generated theme document manifest does not match its schema",
        ),
        (
            edit_root(&|root| {
                root.insert("author".into(), text("someone else"));
            }),
            "generated theme document metadata does not match its schema",
        ),
        (
            edit_root(&|root| {
                root.insert("themes".into(), Json::Null);
            }),
            "generated themes must be an array",
        ),
        (
            edit_root(&|root| {
                root.insert("themes".into(), Json::List(vec![]));
            }),
            "generated theme document must contain exactly one theme",
        ),
        (
            edit_root(&|root| {
                root.insert("themes".into(), Json::List(vec![Json::Bool(true)]));
            }),
            "generated theme entry must be an object",
        ),
        (
            edit_theme(&|theme| {
                theme.insert("name".into(), text("other"));
            }),
            "generated theme entry manifest does not match its schema",
        ),
        (
            edit_theme(&|theme| {
                theme.insert("appearance".into(), Json::Null);
            }),
            "generated theme appearance must be a string",
        ),
        (
            edit_theme(&|theme| {
                theme.insert("appearance".into(), text("dim"));
            }),
            "generated theme appearance must be dark or light, got \"dim\"",
        ),
        (
            edit_theme(&|theme| {
                theme.insert("style".into(), Json::Null);
            }),
            "generated theme style must be an object",
        ),
        (
            edit_style(&|style| {
                style.remove("text");
            }),
            "generated style manifest does not match its schema",
        ),
        (
            edit_style(&|style| {
                style.insert("text".into(), Json::Null);
            }),
            "generated theme role text is not a color",
        ),
        (
            edit_style(&|style| {
                style.insert("text".into(), text("red"));
            }),
            "invalid hex color: \"red\"",
        ),
        (
            edit_style(&|style| {
                style.insert("background.appearance".into(), text("blurred"));
            }),
            "generated background appearance must be opaque",
        ),
        (
            edit_style(&|style| {
                style.insert("accents".into(), Json::Null);
            }),
            "generated accents must be an array",
        ),
        (
            edit_style(&|style| {
                style.insert("accents".into(), Json::List(vec![]));
            }),
            "generated theme must contain 12 accents",
        ),
        (
            edit_style(&|style| {
                let accents = (0..12).map(|_| Json::Null).collect();
                style.insert("accents".into(), Json::List(accents));
            }),
            "generated accent 0 is not a color",
        ),
        (
            edit_style(&|style| {
                style.insert("players".into(), Json::Null);
            }),
            "generated players must be an array",
        ),
        (
            edit_style(&|style| {
                style.insert("players".into(), players(7));
            }),
            "generated theme must contain 8 players",
        ),
        (
            edit_style(&|style| {
                let none = (0..8).map(|_| Json::Null).collect();
                style.insert("players".into(), Json::List(none));
            }),
            "generated player 0 is not an object",
        ),
        (
            edit_style(&|style| {
                let empty = (0..8).map(|_| object(vec![])).collect();
                style.insert("players".into(), Json::List(empty));
            }),
            "generated player 0 must contain cursor, background, and selection",
        ),
        (
            edit_style(&|style| {
                let wrong = (0..8)
                    .map(|_| {
                        object(vec![
                            ("cursor", text("#000000")),
                            ("background", Json::Null),
                            ("selection", text("#000000")),
                        ])
                    })
                    .collect();
                style.insert("players".into(), Json::List(wrong));
            }),
            "generated player 0.background is not a color",
        ),
        (
            edit_style(&|style| {
                style.insert("syntax".into(), Json::Null);
            }),
            "generated syntax must be an object",
        ),
        (
            edit_style(&|style| {
                style.insert("syntax".into(), object(vec![]));
            }),
            "generated syntax manifest does not match capture policy",
        ),
        (
            edit_style(&|style| {
                let mut syntax = fields(style.remove("syntax").unwrap());
                syntax.insert("keyword".into(), object(vec![]));
                style.insert("syntax".into(), Json::Object(syntax));
            }),
            "generated syntax.keyword has no color",
        ),
    ] {
        assert_eq!(refusal(&document), message);
    }
    assert_eq!(refusal(&Json::Null), "generated theme document must be an object");
}

fn texts(values: &[&str]) -> Vec<String> {
    values.iter().map(|value| (*value).to_owned()).collect()
}

fn scalar(value: f64) -> Scalar {
    Scalar {
        bits: value.to_bits(),
    }
}

fn scalars(values: &[f64]) -> Vec<Scalar> {
    values.iter().copied().map(scalar).collect()
}

#[test]
fn repeated_texts_are_kept_once() {
    assert_eq!(
        unique(&texts(&["b", "a", "b", "c", "a"])),
        texts(&["b", "a", "c"])
    );
    assert_eq!(
        unique_of_all(&[&texts(&["b", "a"]), &texts(&["a", "c"])]),
        texts(&["b", "a", "c"])
    );
}

#[test]
fn layers_are_painted_over_each_base() {
    let bases = texts(&["#000000", "#ffffff"]);
    assert_eq!(
        render_on_bases(&bases, &["#ffffff80", "#00000080"]).unwrap(),
        texts(&["#404040", "#7f7f7f"])
    );
    assert_eq!(
        render_each(&bases, &["#ffffff80", "#00000080"]).unwrap(),
        texts(&["#808080", "#ffffff", "#000000", "#7f7f7f"])
    );
    assert!(render_on_bases(&texts(&["gray"]), &["#ffffff80"]).is_err());
}

#[test]
fn one_highlight_lies_over_each_base() {
    let scenes = render_with_bounded_generic_highlights(
        &texts(&["#000000"]),
        &["#ffffff80", "#ff000080"],
    )
    .unwrap();
    assert_eq!(scenes, texts(&["#000000", "#808080", "#800000"]));
}

fn surfaces() -> Surfaces {
    Surfaces {
        canvas: "#101010".into(),
        surface: "#202020".into(),
        elevated: "#303030".into(),
        chrome: "#101010".into(),
    }
}

#[test]
fn surfaces_are_listed_once() {
    let backgrounds = surfaces().backgrounds();
    assert_eq!(backgrounds, texts(&["#101010", "#202020", "#303030"]));
    let interactions = interaction_bases(&backgrounds, "#404040", "#101010");
    assert_eq!(
        interactions,
        texts(&["#101010", "#202020", "#303030", "#404040"])
    );
    assert_eq!(text_bases(&interactions, "#505050").len(), 5);
    assert_eq!(semantic_bases(&interactions, "#505050", true).len(), 5);
    assert_eq!(semantic_bases(&interactions, "#505050", false).len(), 4);
}

#[test]
fn states_are_painted_on_every_surface() {
    let bases = texts(&["#000000", "#202020"]);
    let backgrounds = ui_backgrounds(&bases, "#404040", &texts(&["#ffffff80"])).unwrap();
    assert_eq!(
        backgrounds,
        texts(&["#000000", "#202020", "#404040", "#808080", "#909090"])
    );
}

#[test]
fn editor_lines_are_bases_of_their_own() {
    let lines = EditorLines {
        active: "#ffffff10".into(),
        highlighted: "#ffffff20".into(),
        debugger: "#ff000040".into(),
    };
    let bases = editor_bases(&surfaces(), &lines).unwrap();
    assert_eq!(bases[0], "#101010");
    assert_eq!(bases.len(), 4);
    let terminal = terminal_backgrounds("#000000", "#ffffff80", "#ffffff40").unwrap();
    assert_eq!(terminal, texts(&["#000000", "#808080", "#404040"]));
    let contexts = syntax_contexts(
        &texts(&["#000000"]),
        &texts(&["#000000"]),
        "#ffffff80",
        "#ffffff40",
    )
    .unwrap();
    assert_eq!(contexts, texts(&["#000000", "#808080", "#404040"]));
    let cursors = cursor_backgrounds(&texts(&["#000000"]), "#ffffff80", "#ffffff40").unwrap();
    assert!(cursors.contains(&"#808080".to_owned()));
    let statuses = status_foreground_backgrounds(
        &texts(&["#000000"]),
        &texts(&["#101010"]),
        "#202020",
        &texts(&["#000000"]),
    );
    assert!(statuses.contains(&"#202020".to_owned()));
}

#[test]
fn terminal_strengths_are_tried_at_most_three_times() {
    assert_eq!(next_terminal_seed(TerminalSeed::Own, true), None);
    assert_eq!(
        next_terminal_seed(TerminalSeed::Own, false),
        Some(TerminalSeed::Normal)
    );
    assert_eq!(
        next_terminal_seed(TerminalSeed::Normal, false),
        Some(TerminalSeed::Fallback)
    );
    assert_eq!(next_terminal_seed(TerminalSeed::Fallback, false), None);
}

#[test]
fn limits_hold_on_their_side() {
    let actual = scalars(&[2.0, 3.0]);
    let limits = scalars(&[2.0, 2.5]);
    assert!(contrasts_satisfy(&actual, &limits, Side::AtLeast));
    assert!(!contrasts_satisfy(&actual, &limits, Side::AtMost));
    assert_eq!(minimum(&actual, scalar(f64::INFINITY)), scalar(2.0));
    assert_eq!(minimum(&Vec::new(), scalar(7.0)), scalar(7.0));
    assert!(stays_readable(&actual, scalar(f64::INFINITY), scalar(2.0)));
    assert!(!stays_readable(&actual, scalar(f64::INFINITY), scalar(2.1)));
    assert!(chrome_separates_active_tab(
        scalar(1.2),
        scalar(0.05),
        scalar(1.1),
        scalar(0.05)
    ));
    assert!(!chrome_separates_active_tab(
        scalar(1.0),
        scalar(0.05),
        scalar(1.1),
        scalar(0.05)
    ));
    assert!(is_dark_mode("dark"));
    assert!(!is_dark_mode("light"));
}

#[test]
fn the_least_penalty_is_taken_first() {
    assert_eq!(least_penalty(&scalars(&[0.5, 0.25, 0.25])), Some(1));
    assert_eq!(least_penalty(&Vec::new()), None);
}

fn authored(key: &'static str, lightness: f64, target: f64) -> AuthoredSurface {
    AuthoredSurface {
        key,
        value: format!("#{key}"),
        lightness: scalar(lightness),
        gap: scalar((lightness - target).abs()),
    }
}

#[test]
fn surfaces_come_from_the_palette_where_they_can() {
    let need = SurfaceNeed {
        target: scalar(0.30),
        canvas: scalar(0.20),
        tolerance: scalar(0.05),
        floor: scalar(f64::NEG_INFINITY),
    };
    let candidates = vec![
        authored("b", 0.26, 0.30),
        authored("c", 0.32, 0.30),
        authored("a", 0.15, 0.30),
    ];
    assert_eq!(
        choose_surface(need, &candidates, &Vec::new()),
        Some(SurfaceChoice::Authored(1))
    );
    assert_eq!(
        choose_surface(need, &candidates, &texts(&["#c"])),
        Some(SurfaceChoice::Authored(0))
    );
    assert_eq!(
        choose_surface(need, &candidates, &texts(&["#b", "#c"])),
        Some(SurfaceChoice::Toned(1))
    );
    assert_eq!(choose_surface(need, &Vec::new(), &Vec::new()), None);
}

#[test]
fn seeds_come_in_a_fixed_order() {
    let semantic = semantic_colors();
    let players = player_seeds(&semantic);
    assert_eq!(players.len(), 8);
    assert_eq!(players[0], semantic.accent);
    assert_eq!(players[1], semantic.orange);
    assert_eq!(players[7], semantic.red);
    let modes = mode_seeds(&semantic);
    assert_eq!(modes.len(), 8);
    assert_eq!(modes[7], semantic.accent);

    let mut palette = ResolvedPalette {
        mode: "dark".into(),
        colors: TextMap::new(),
        provenance: TextMap::new(),
    };
    for (index, key) in (5000..).zip(CANONICAL_COLOR_KEYS) {
        palette.colors.insert(key.to_owned(), opaque(index));
        palette.provenance.insert(key.to_owned(), Provenance::Direct);
    }
    let accents = accent_seeds(&semantic, &palette);
    assert_eq!(accents.len(), 12);
    assert_eq!(accents[..8], players[..]);
    assert_eq!(Some(&accents[8]), palette.colors.get("brown"));
    assert_eq!(Some(&accents[11]), palette.colors.get("bright_green"));
}

#[test]
fn the_first_of_the_lowest_ranks_wins() {
    let ranks = vec![
        scalars(&[1.0, 0.0]),
        scalars(&[0.0, 5.0]),
        scalars(&[0.0, 4.0]),
        scalars(&[0.0, 4.5]),
        scalars(&[0.0, 4.0]),
    ];
    assert_eq!(lowest(&ranks), Some(2));
    assert_eq!(lowest(&Vec::new()), None);
}

#[test]
fn every_border_is_paired_with_a_stronger_one() {
    let luminances = scalars(&[0.1, 0.2, 0.3]);
    assert_eq!(edge(&luminances, true), scalar(0.3));
    assert_eq!(edge(&luminances, false), scalar(0.1));
    assert!(crosses_surface(scalar(0.25), scalar(0.3), true));
    assert!(!crosses_surface(scalar(0.35), scalar(0.3), true));
    let pairs = pairings(&luminances, true);
    for (weak, strong) in &pairs {
        assert!(weak < &3 && strong < &3);
    }
    assert!(pairs.iter().any(|(weak, _)| *weak == 0));
}

#[test]
fn a_document_is_written_with_line_breaks() {
    let mut fields = TextMap::new();
    fields.insert("b".to_owned(), Json::Text("x\n".to_owned()));
    fields.insert(
        "a".to_owned(),
        Json::List(vec![Json::Null, Json::Bool(true), Json::Number(700)]),
    );
    let content = json_bytes(&Json::Object(fields)).unwrap();
    assert_eq!(
        String::from_utf8(content).unwrap(),
        "{\n  \"a\": [\n    null,\n    true,\n    700\n  ],\n  \"b\": \"x\\n\"\n}\n"
    );
}

#[test]
fn a_theme_is_read_as_it_was_written() {
    let document = assemble_theme(&parts()).unwrap();
    let content = json_bytes(&document).unwrap();
    let read: serde_json::Value = serde_json::from_slice(&content).unwrap();
    let root = document.as_object().unwrap();
    assert_eq!(read["$schema"], SCHEMA_URL);
    assert_eq!(read["name"], get_text(root, "name").unwrap());
    let themes = get_list(root, "themes").unwrap();
    let style = get_object(themes[0].as_object().unwrap(), "style").unwrap();
    let shown = read["themes"][0]["style"].as_object().unwrap();
    assert_eq!(shown.len(), style.len());
    for index in 0..style.len() {
        let (name, value) = style.entry(index);
        if let Some(text) = value.as_str() {
            assert_eq!(shown[name], text);
        }
    }
}

#[test]
fn a_tree_that_nests_too_deep_is_not_written() {
    let nested = |levels: usize| {
        let mut tree = Json::Null;
        for _ in 0..levels {
            tree = Json::List(vec![tree]);
        }
        tree
    };
    assert!(json_bytes(&nested(READ_DEPTH)).is_some());
    assert!(json_bytes(&nested(READ_DEPTH + 1)).is_none());
}
