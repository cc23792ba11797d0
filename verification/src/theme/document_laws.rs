//! What a valid theme document holds.

use crate::color::is_hex;
use crate::json::{list_at, object_at, text_at, Json};
use crate::syntax::policy::capture_names;
use crate::text::slice_views;
use crate::theme::document::{
    accent_fault, capture_fault, entry_fields, fixed_fields, is_fixed_field, is_style_field,
    is_valid_theme, player_color_fault, player_fault, role_fault, root_fields, status_fields,
    style_fields, theme_entry,
};
use crate::theme::laws::style_of;
use crate::theme::manifest::lemma_roles_are_the_manifest;
use crate::theme::roles::STYLE_ROLES;
use vstd::prelude::*;

verus! {

/// Whether the field is a hex color.
pub open spec fn has_hex(fields: Map<Seq<char>, Json>, key: Seq<char>) -> bool {
    text_at(fields, key) matches Some(color) && is_hex(color)
}

/// A valid document names its schema, itself and its author, and holds one theme of the same
/// name, for a dark or a light editor.
pub proof fn lemma_valid_theme_is_named(document: Json)
    requires
        is_valid_theme(document),
    ensures
        ({
            let root = document.object_view()->0;
            let themes = list_at(root, "themes"@)->0;
            let theme = themes[0].object_view()->0;
            &&& document.object_view() is Some
            &&& text_at(root, "$schema"@) == Some("https://zed.dev/schema/themes/v0.2.0.json"@)
            &&& text_at(root, "name"@) == Some("Omarchy"@)
            &&& text_at(root, "author"@) == Some("APS"@)
            &&& forall|key: Seq<char>| #[trigger]
                root.contains_key(key) <==> key == "$schema"@ || key == "name"@ || key == "author"@
                    || key == "themes"@
            &&& list_at(root, "themes"@) is Some && themes.len() == 1
            &&& themes[0].object_view() is Some
            &&& text_at(theme, "name"@) == Some("Omarchy"@)
            &&& text_at(theme, "appearance"@) == Some("dark"@) || text_at(theme, "appearance"@)
                == Some("light"@)
            &&& object_at(theme, "style"@) == Some(style_of(document))
            &&& forall|key: Seq<char>| #[trigger]
                theme.contains_key(key) <==> key == "name"@ || key == "appearance"@ || key
                    == "style"@
        }),
{
    let root = document.object_view()->0;
    assert forall|key: Seq<char>| #[trigger] root.contains_key(key) <==> key == "$schema"@ || key
        == "name"@ || key == "author"@ || key == "themes"@ by {
        assert(root.dom().contains(key) <==> root_fields().contains(key));
    }
    let theme = theme_entry(root)->0;
    assert forall|key: Seq<char>| #[trigger] theme.contains_key(key) <==> key == "name"@ || key
        == "appearance"@ || key == "style"@ by {
        assert(theme.dom().contains(key) <==> entry_fields().contains(key));
    }
}

/// The style of a valid document has a color for every role and, beside the accents, the
/// players, the syntax and an opaque background, nothing else.
pub proof fn lemma_valid_style_has_every_role(document: Json)
    requires
        is_valid_theme(document),
    ensures
        forall|i: int|
            0 <= i < STYLE_ROLES@.len() ==> has_hex(
                style_of(document),
                #[trigger] STYLE_ROLES@[i]@,
            ),
        forall|name: Seq<char>| #[trigger]
            style_of(document).contains_key(name) <==> slice_views(STYLE_ROLES@).contains(name)
                || name == "background.appearance"@ || name == "accents"@ || name == "players"@
                || name == "syntax"@,
        text_at(style_of(document), "background.appearance"@) == Some("opaque"@),
{
    let style = style_of(document);
    assert forall|name: Seq<char>| #[trigger] style.contains_key(name) <==> slice_views(
        STYLE_ROLES@,
    ).contains(name) || name == "background.appearance"@ || name == "accents"@ || name
        == "players"@ || name == "syntax"@ by {
        lemma_roles_are_the_manifest(name);
        assert(style.dom().contains(name) <==> style_fields().contains(name));
        assert(style_fields().contains(name) <==> is_style_field(name));
    }
    assert forall|i: int| 0 <= i < STYLE_ROLES@.len() implies has_hex(
        style,
        #[trigger] STYLE_ROLES@[i]@,
    ) by {
        let name = STYLE_ROLES@[i]@;
        assert(slice_views(STYLE_ROLES@)[i] == name);
        assert(slice_views(STYLE_ROLES@).contains(name));
        lemma_roles_are_the_manifest(name);
        let faults = |name: Seq<char>| role_fault(style, name);
        if is_fixed_field(name) {
            assert(fixed_fields().contains(name));
            assert(faults(name) is None);
        } else {
            assert(status_fields().contains(name));
            assert(faults(name) is None);
        }
    }
}

/// A valid document has twelve accents and eight players, each with a cursor, a background and
/// a selection, and a color for every capture.
pub proof fn lemma_valid_style_has_every_list(document: Json)
    requires
        is_valid_theme(document),
    ensures
        ({
            let accents = list_at(style_of(document), "accents"@)->0;
            accents.len() == 12 && forall|i: int|
                0 <= i < 12 ==> ((#[trigger] accents[i]).text_view() matches Some(color) && is_hex(
                    color,
                ))
        }),
        ({
            let players = list_at(style_of(document), "players"@)->0;
            players.len() == 8 && forall|i: int|
                0 <= i < 8 ==> ((#[trigger] players[i]).object_view() matches Some(player) && {
                    &&& player.dom().len() == 3
                    &&& has_hex(player, "cursor"@)
                    &&& has_hex(player, "background"@)
                    &&& has_hex(player, "selection"@)
                })
        }),
        ({
            let syntax = object_at(style_of(document), "syntax"@)->0;
            &&& forall|i: int|
                0 <= i < capture_names().len() ==> (syntax[#[trigger] capture_names()[i]].object_view()
                    matches Some(capture) && has_hex(capture, "color"@))
            &&& forall|name: Seq<char>| #[trigger]
                syntax.contains_key(name) <==> capture_names().contains(name)
        }),
{
    let style = style_of(document);
    let accents = list_at(style, "accents"@)->0;
    assert forall|i: int| 0 <= i < 12 implies ((#[trigger] accents[i]).text_view() matches Some(
        color,
    ) && is_hex(color)) by {
        assert(accent_fault(accents, i) is None);
    }
    let players = list_at(style, "players"@)->0;
    assert forall|i: int| 0 <= i < 8 implies ((#[trigger] players[i]).object_view() matches Some(
        player,
    ) && {
        &&& player.dom().len() == 3
        &&& has_hex(player, "cursor"@)
        &&& has_hex(player, "background"@)
        &&& has_hex(player, "selection"@)
    }) by {
        assert(player_fault(players, i) is None);
        let player = players[i].object_view()->0;
        assert(player_color_fault(player, i, "cursor"@) is None);
        assert(player_color_fault(player, i, "background"@) is None);
        assert(player_color_fault(player, i, "selection"@) is None);
    }
    let syntax = object_at(style, "syntax"@)->0;
    let faults = |name: Seq<char>| capture_fault(syntax, name);
    assert forall|i: int| 0 <= i < capture_names().len() implies (
    syntax[#[trigger] capture_names()[i]].object_view() matches Some(capture) && has_hex(
        capture,
        "color"@,
    )) by {
        let name = capture_names()[i];
        assert(capture_names().contains(name));
        assert(syntax.dom().contains(name));
        assert(faults(name) is None);
    }
    assert forall|name: Seq<char>| #[trigger]
        syntax.contains_key(name) <==> capture_names().contains(name) by {
        assert(syntax.dom().contains(name) <==> capture_names().to_set().contains(name));
    }
}

} // verus!
