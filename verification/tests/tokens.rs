//! Typed theme colors.

use omarchy_zed_theme::theme::style::StyleBuilder;
use omarchy_zed_theme::theme::tokens::{OpaqueColor, OverlayColor, RoleColor};

#[test]
fn opaque_and_overlay_tokens_reject_the_wrong_color_kind() {
    assert!(OpaqueColor::new("#112233".into()).is_ok());
    assert!(OpaqueColor::new("#11223380".into()).is_err());
    assert!(OverlayColor::new("#11223380".into()).is_ok());
    assert!(OverlayColor::new("#112233".into()).is_err());
    assert!(RoleColor::opaque_value("opaque", "#11223380".into()).is_err());
    assert!(RoleColor::overlay_value("overlay", "#112233".into()).is_err());
}

#[test]
fn alpha_projection_retains_rgb() {
    let source = OpaqueColor::new("#123456".into()).unwrap();
    assert_eq!(source.with_alpha(0x3d).unwrap().hex(), "#1234563d");
}

#[test]
fn transparent_token_is_canonical() {
    assert_eq!(OverlayColor::transparent().hex(), "#00000000");
}

#[test]
fn role_colors_keep_their_parts() {
    let role = RoleColor::opaque_value("text", "#112233".into()).unwrap();
    assert_eq!(role.into_parts(), ("text".to_owned(), "#112233".to_owned()));
}

#[test]
fn a_wrong_kind_is_named_in_the_error() {
    let error = RoleColor::opaque_value("text", "#11223380".into())
        .err()
        .unwrap();
    assert_eq!(
        error.message(),
        "opaque token received translucent color #11223380"
    );
}

#[test]
fn a_style_builder_collects_roles_once() {
    let mut style = StyleBuilder::new();
    style.insert_opaque("text", "#112233".into()).unwrap();
    style.insert_overlay("border", "#44556680".into()).unwrap();
    assert!(style.insert_opaque("icon", "#44556680".into()).is_err());
}
