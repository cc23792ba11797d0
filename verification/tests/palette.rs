//! Reading what the palette resolver writes.

use omarchy_zed_theme::constants::{CANONICAL_COLOR_KEYS, COLOR_ALIAS_NAMES, COLOR_ALIAS_TARGETS};
use omarchy_zed_theme::map::TextMap;
use omarchy_zed_theme::palette::{
    parse_resolver_output, parse_tsv, Provenance, ResolvedPalette,
};
use omarchy_zed_theme::syntax::profile::collect_evidence;
use omarchy_zed_theme::syntax::{validate_syntax_inputs, SyntaxContexts};
use omarchy_zed_theme::ErrorKind;

fn synthetic_color(key: &str) -> &'static str {
    match key {
        "background" | "color0" => "#1e2326",
        "dark_background" => "#181b1c",
        "darker_background" | "color8" => "#121516",
        "lighter_background" => "#272e33",
        "foreground" | "color7" => "#d3c6aa",
        "dark_foreground" => "#859289",
        "light_foreground" | "color15" => "#e4e1cd",
        "bright_foreground" => "#fdf6e3",
        "accent" | "blue" | "bright_blue" | "color4" | "color12" => "#7fbbb3",
        "selection" | "selection_background" => "#4f5b58",
        "selection_foreground" => "#fdf6e3",
        "muted" => "#9da9a0",
        "cursor" => "#d699b6",
        "red" | "bright_red" | "color1" | "color9" => "#e67e80",
        "yellow" | "bright_yellow" | "color3" | "color11" => "#dbbc7f",
        "orange" | "brown" => "#e69875",
        "green" | "bright_green" | "color2" | "color10" => "#a7c080",
        "cyan" | "bright_cyan" | "color6" | "color14" => "#83c092",
        "magenta" | "bright_magenta" | "color5" | "color13" => "#d699b6",
        _ => unreachable!("missing synthetic color for {key}"),
    }
}

fn synthetic_palette() -> ResolvedPalette {
    let mut colors = TextMap::new();
    let mut provenance = TextMap::new();
    for key in CANONICAL_COLOR_KEYS {
        colors.insert(key.to_owned(), synthetic_color(key).to_owned());
        provenance.insert(key.to_owned(), Provenance::Direct);
    }
    ResolvedPalette {
        mode: "dark".to_owned(),
        colors,
        provenance,
    }
}

fn resolver_text() -> String {
    let mut text = String::new();
    for key in CANONICAL_COLOR_KEYS {
        text.push_str(&format!("{key}\t{}\n", synthetic_color(key)));
    }
    text.push_str("mode\tdark\n");
    text
}

#[test]
fn malformed_resolved_palettes_are_rejected() {
    let mut missing = synthetic_palette();
    missing.colors.remove("foreground");
    let missing_error = missing.validate().unwrap_err();
    assert_eq!(missing_error.kind(), ErrorKind::InvalidInput);
    assert!(missing_error
        .message()
        .contains("omitted canonical keys: foreground"));

    let mut invalid_mode = synthetic_palette();
    invalid_mode.mode = "sepia".into();
    assert!(invalid_mode
        .validate()
        .unwrap_err()
        .message()
        .contains("resolved mode must be 'dark' or 'light'"));

    let mut invalid_color = synthetic_palette();
    invalid_color
        .colors
        .insert("foreground".into(), "#€éa".into());
    assert!(invalid_color.validate().is_err());

    let mut missing_provenance = synthetic_palette();
    missing_provenance.provenance.remove("green");
    let profile_error = collect_evidence(&missing_provenance).err().unwrap();
    assert_eq!(profile_error.kind(), ErrorKind::InvalidInput);
    assert!(profile_error.message().contains("provenance: green"));

    let mut missing_syntax_color = synthetic_palette();
    missing_syntax_color.colors.remove("muted");
    let none = Vec::new();
    let syntax_error = validate_syntax_inputs(
        &missing_syntax_color,
        &SyntaxContexts {
            ordinary: &none,
            rendered: &none,
        },
        "#ffffff",
        "#ffffff",
        ["#00ff00", "#ffff00", "#ff0000"],
    )
    .unwrap_err();
    assert_eq!(syntax_error.kind(), ErrorKind::InvalidInput);
    assert!(syntax_error.message().contains("canonical keys: muted"));
}

#[test]
fn syntax_inputs_must_be_opaque_colors() {
    let palette = synthetic_palette();
    let invalid = |ordinary: Vec<String>,
                   rendered: Vec<String>,
                   saliency_reference: &str,
                   predictive: &str,
                   diff_sources: [&str; 3]| {
        validate_syntax_inputs(
            &palette,
            &SyntaxContexts {
                ordinary: &ordinary,
                rendered: &rendered,
            },
            saliency_reference,
            predictive,
            diff_sources,
        )
        .unwrap_err()
    };
    let opaque_context = || vec!["#101010".to_owned()];
    let opaque_diff = ["#00aa00", "#aaaa00", "#aa0000"];

    for error in [
        invalid(
            opaque_context(),
            opaque_context(),
            "#ffffff80",
            "#ffffff",
            opaque_diff,
        ),
        invalid(
            opaque_context(),
            opaque_context(),
            "#ffffff",
            "#ffffff80",
            opaque_diff,
        ),
        invalid(
            opaque_context(),
            opaque_context(),
            "#ffffff",
            "#ffffff",
            ["#00aa0080", "#aaaa00", "#aa0000"],
        ),
        invalid(
            vec!["#10101080".to_owned()],
            opaque_context(),
            "#ffffff",
            "#ffffff",
            opaque_diff,
        ),
        invalid(
            opaque_context(),
            vec!["#10101080".to_owned()],
            "#ffffff",
            "#ffffff",
            opaque_diff,
        ),
    ] {
        assert_eq!(error.kind(), ErrorKind::InvalidInput);
        assert!(error.message().contains("six-digit hex color"));
    }
}

#[test]
fn valid_syntax_inputs_are_accepted() {
    let palette = synthetic_palette();
    let context = vec!["#101010".to_owned()];
    let none = Vec::new();
    let diff = ["#00aa00", "#aaaa00", "#aa0000"];
    let check = |ordinary, rendered| {
        validate_syntax_inputs(
            &palette,
            &SyntaxContexts { ordinary, rendered },
            "#ffffff",
            "#ffffff",
            diff,
        )
    };
    assert!(check(&context, &context).is_ok());
    for error in [
        check(&none, &context).unwrap_err(),
        check(&context, &none).unwrap_err(),
    ] {
        assert_eq!(
            error.message(),
            "syntax generation requires ordinary and rendered contexts"
        );
    }
}

#[test]
fn resolver_lines_are_keys_and_values() {
    let records = parse_tsv("red\t#ff0000\nmode\tdark\r\n").unwrap();
    assert_eq!(records.len(), 2);
    assert_eq!(records.get("red"), Some(&"#ff0000".to_owned()));
    assert_eq!(records.get("mode"), Some(&"dark".to_owned()));
    for (text, message) in [
        ("red", "resolver line 1 is not key<TAB>value"),
        ("a\tb\nred\tx\ty", "resolver line 2 is not key<TAB>value"),
        ("\tb", "resolver line 1 has an empty key or value"),
        ("a\t", "resolver line 1 has an empty key or value"),
        ("a\tb\na\tc", "resolver emitted duplicate key \"a\""),
    ] {
        let error = parse_tsv(text).err().unwrap();
        assert_eq!(error.kind(), ErrorKind::InvalidInput);
        assert_eq!(error.message(), message);
    }
}

#[test]
fn resolver_output_becomes_a_palette() {
    let raw = "background\t#1e2326\ncolor1\t#e67e80\npurple\t#d699b6\n";
    let palette = parse_resolver_output(&resolver_text(), raw).unwrap();
    assert_eq!(palette.mode, "dark");
    assert_eq!(palette.colors.get("accent"), Some(&"#7fbbb3".to_owned()));
    assert_eq!(
        palette.provenance.get("background"),
        Some(&Provenance::Direct)
    );
    assert_eq!(palette.provenance.get("red"), Some(&Provenance::Alias));
    assert_eq!(palette.provenance.get("magenta"), Some(&Provenance::Alias));
    assert_eq!(palette.provenance.get("green"), Some(&Provenance::Derived));
    assert!(palette.validate().is_ok());
}

#[test]
fn palette_values_are_lowered() {
    let text = resolver_text().replace("#7fbbb3", "#7FBBB3");
    let palette = parse_resolver_output(&text, "").unwrap();
    assert_eq!(palette.colors.get("blue"), Some(&"#7fbbb3".to_owned()));
}

#[test]
fn incomplete_resolver_output_is_refused() {
    let without_mode = resolver_text().replace("mode\tdark\n", "");
    assert_eq!(
        parse_resolver_output(&without_mode, "").err().unwrap().message(),
        "resolver omitted canonical keys: mode"
    );
    let sepia = resolver_text().replace("mode\tdark", "mode\tsepia");
    assert_eq!(
        parse_resolver_output(&sepia, "").err().unwrap().message(),
        "resolved mode must be 'dark' or 'light', got \"sepia\""
    );
    let gray = resolver_text().replace("muted\t#9da9a0", "muted\tgray");
    assert_eq!(
        parse_resolver_output(&gray, "").err().unwrap().message(),
        "resolved palette key \"muted\" must be a six-digit hex color, got \"gray\""
    );
}

#[test]
fn aliases_must_agree_with_their_colors() {
    for (alias, target) in COLOR_ALIAS_NAMES.iter().zip(COLOR_ALIAS_TARGETS) {
        let agreeing = format!("{}{alias}\t{}\n", resolver_text(), synthetic_color(target));
        assert!(parse_resolver_output(&agreeing, "").is_ok(), "{alias}");
        let differing = format!("{}{alias}\t#010203\n", resolver_text());
        assert_eq!(
            parse_resolver_output(&differing, "").err().unwrap().message(),
            format!("resolver alias {alias:?} disagrees with {target:?}")
        );
    }
    let light = format!("{}theme_type\tlight\n", resolver_text());
    assert_eq!(
        parse_resolver_output(&light, "").err().unwrap().message(),
        "resolver alias 'theme_type' disagrees with 'mode'"
    );
}
