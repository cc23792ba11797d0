//! Byte colors, their text and their blending.

use omarchy_zed_theme::color::{
    gpui_blend, normalize_hex, parse_hex, render_layers, validate_opaque_hex, with_alpha, Rgb24,
    Rgba,
};
use omarchy_zed_theme::ErrorKind;
use std::cmp::Ordering;

fn byte(value: f64) -> u8 {
    (value.clamp(0.0, 1.0) * 255.0 + 0.5).floor() as u8
}

#[test]
fn malformed_non_ascii_hex_is_rejected() {
    assert!(parse_hex("#€éa").is_err());
}

#[test]
fn packed_blend_matches_quantized_floating_point() {
    for base in 0..=u8::MAX {
        for overlay in 0..=u8::MAX {
            for alpha in 0..=u8::MAX {
                let base_rgb = Rgb24 { r: 0, g: 0, b: base };
                let overlay_rgb = Rgb24 { r: 0, g: 0, b: overlay };
                let actual = base_rgb.blend(overlay_rgb, alpha).channel(0);
                let expected = byte(
                    f64::from(base) / 255.0 * (1.0 - f64::from(alpha) / 255.0)
                        + f64::from(overlay) / 255.0 * f64::from(alpha) / 255.0,
                );
                assert_eq!(
                    actual, expected,
                    "base={base} overlay={overlay} alpha={alpha}"
                );
            }
        }
    }
}

#[test]
fn half_white_over_black_is_middle_gray() {
    assert_eq!(
        gpui_blend("#000000", "#ffffff80").unwrap().opaque_hex(),
        "#808080"
    );
}

#[test]
fn hex_texts_are_parsed_and_written_back() {
    let opaque = parse_hex("#12aBcD").unwrap();
    assert_eq!(opaque, Rgba { r: 0x12, g: 0xab, b: 0xcd, a: 0xff });
    assert_eq!(opaque.hex(), "#12abcd");
    let translucent = parse_hex("#12abcd7f").unwrap();
    assert_eq!(translucent.alpha(), 0x7f);
    assert_eq!(translucent.hex(), "#12abcd7f");
    assert_eq!(translucent.opaque_hex(), "#12abcd");
    assert_eq!(parse_hex("#12abcdff").unwrap().hex(), "#12abcd");
}

#[test]
fn malformed_hex_texts_are_named_in_the_error() {
    for value in ["", "#", "12abcd", "#12abc", "#12abcdf", "#12abcg", "#12abcdff0"] {
        let error = parse_hex(value).unwrap_err();
        assert_eq!(error.kind(), ErrorKind::InvalidInput);
        assert_eq!(error.message(), format!("invalid hex color: {value:?}"));
    }
}

#[test]
fn palette_colors_are_lowered_and_must_have_six_digits() {
    assert_eq!(normalize_hex("#AABBCC", "red").unwrap(), "#aabbcc");
    let error = normalize_hex("#aabbcc80", "red").unwrap_err();
    assert_eq!(
        error.message(),
        "resolved palette key \"red\" must be a six-digit hex color, got \"#aabbcc80\""
    );
    assert!(validate_opaque_hex("#aabbcc", "label").is_ok());
    assert_eq!(
        validate_opaque_hex("blue", "label").unwrap_err().message(),
        "label must be a six-digit hex color, got \"blue\""
    );
}

#[test]
fn layers_are_blended_from_the_bottom_up() {
    assert_eq!(render_layers("#102030", &[]).unwrap(), "#102030");
    assert_eq!(
        render_layers("#000000", &["#ffffff80", "#00000080"]).unwrap(),
        "#404040"
    );
    assert_eq!(render_layers("#000000", &["#336699"]).unwrap(), "#336699");
    assert_eq!(render_layers("#336699", &["#ffffff00"]).unwrap(), "#336699");
    assert!(render_layers("#000000", &["#ffffff80", "nothing"]).is_err());
}

#[test]
fn a_blend_keeps_the_alpha_of_its_base() {
    assert_eq!(
        gpui_blend("#00000010", "#ffffff").unwrap(),
        Rgba { r: 255, g: 255, b: 255, a: 0x10 }
    );
}

#[test]
fn alpha_is_replaced_not_multiplied() {
    assert_eq!(with_alpha("#11223344", 0x80).unwrap(), "#11223380");
    assert_eq!(with_alpha("#11223344", 0xff).unwrap(), "#112233");
    assert!(with_alpha("112233", 0x80).is_err());
}

#[test]
fn opaque_colors_order_before_translucent_ones() {
    let color = |text: &str| parse_hex(text).unwrap();
    assert_eq!(
        color("#112233").hex_cmp(color("#11223301")),
        Ordering::Less
    );
    assert_eq!(
        color("#11223380").hex_cmp(color("#11223381")),
        Ordering::Less
    );
    assert_eq!(
        color("#112234").hex_cmp(color("#112233")),
        Ordering::Greater
    );
    assert_eq!(color("#112233").hex_cmp(color("#112233")), Ordering::Equal);
}
