//! Which role and contrast each capture has.

use omarchy_zed_theme::constants::{ADDITIONAL_SYNTAX_FIELDS, BASE_SYNTAX_FIELDS};
use omarchy_zed_theme::syntax::plan::SemanticRole::{Base, Callable, Member, String, Type, Value};
use omarchy_zed_theme::syntax::policy::{
    capture_policies, capture_policy, contrast_floor, overlay_contrast_floor,
    SYNTAX_ADAPTIVE_OVERLAY_FLOOR, SYNTAX_PRIMARY_FLOOR, SYNTAX_SEMANTIC_FLOOR,
    SYNTAX_SUBDUED_FLOOR, SYNTAX_SUBDUED_OVERLAY_FLOOR,
};
use std::collections::BTreeSet;

#[test]
fn capture_policy_exactly_covers_the_manifest() {
    let expected = BASE_SYNTAX_FIELDS
        .iter()
        .chain(ADDITIONAL_SYNTAX_FIELDS.iter())
        .copied()
        .collect::<BTreeSet<_>>();
    let policies = capture_policies();
    let actual = policies
        .iter()
        .map(|policy| policy.capture)
        .collect::<BTreeSet<_>>();
    assert_eq!(actual, expected);
    assert_eq!(policies.len(), actual.len());
}

#[test]
fn overlay_floors_only_relax_adaptive_tones() {
    assert_eq!(
        overlay_contrast_floor("primary"),
        Some(SYNTAX_PRIMARY_FLOOR)
    );
    assert_eq!(
        overlay_contrast_floor("diff.plus"),
        Some(SYNTAX_SEMANTIC_FLOOR)
    );
    assert_eq!(
        overlay_contrast_floor("function"),
        Some(SYNTAX_ADAPTIVE_OVERLAY_FLOOR)
    );
    assert_eq!(
        overlay_contrast_floor("comment"),
        Some(SYNTAX_SUBDUED_OVERLAY_FLOOR)
    );
    assert_eq!(
        overlay_contrast_floor("warning"),
        Some(SYNTAX_SUBDUED_OVERLAY_FLOOR)
    );
}

#[test]
fn captures_project_onto_the_intended_semantic_partition() {
    for capture in [
        "string",
        "string.escape",
        "string.regex",
        "string.special",
        "string.special.symbol",
    ] {
        assert_eq!(capture_policy(capture).unwrap().role, String, "{capture}");
    }
    for capture in ["boolean", "constant", "number", "text.literal", "variant"] {
        assert_eq!(capture_policy(capture).unwrap().role, Value, "{capture}");
    }
    for capture in ["constructor", "function", "function.builtin"] {
        assert_eq!(capture_policy(capture).unwrap().role, Callable, "{capture}");
    }
    for capture in ["label", "title", "punctuation.special", "variable.special"] {
        assert_eq!(capture_policy(capture).unwrap().role, Base, "{capture}");
    }
    assert_eq!(capture_policy("selector.pseudo").unwrap().role, Member);
    assert_eq!(capture_policy("lifetime").unwrap().role, Type);
}

#[test]
fn unknown_captures_have_no_policy() {
    for capture in ["", "String", "strings", "no.such.capture"] {
        assert!(capture_policy(capture).is_none());
        assert_eq!(contrast_floor(capture), None);
        assert_eq!(overlay_contrast_floor(capture), None);
    }
}

#[test]
fn floors_of_plain_captures() {
    assert_eq!(contrast_floor("primary"), Some(SYNTAX_PRIMARY_FLOOR));
    assert_eq!(contrast_floor("function"), Some(SYNTAX_SEMANTIC_FLOOR));
    assert_eq!(contrast_floor("comment"), Some(SYNTAX_SUBDUED_FLOOR));
    assert_eq!(SYNTAX_PRIMARY_FLOOR, 4520);
}
