//! The theme document and its structure.

use crate::color::{invalid_hex_message, is_hex, parse_hex};
use crate::constants::{
    CHROME_FIELDS, EDITOR_FIELDS, FOUNDATION_FIELDS, LINK_VC_FIELDS, SCHEMA_URL, STATUS_NAMES,
    TERMINAL_FIELDS, THEME_NAME, VIM_FIELDS,
};
use crate::json::{
    get_list, get_object, get_text, list_at, object_at, text_at, Json,
};
use crate::map::{
    add_names, entry_map, key_index, keys_ascend, lemma_set_of_push, same_keys, TextMap,
};
use crate::syntax::policy::{capture_names, capture_policies};
use crate::text::{
    debug_text, decimal, decimal_of, quoted, same_text, slice_views,
    text_before,
};
use crate::{Error, Result};
use vstd::prelude::*;

verus! {

/// Whether `name` is a color role that is no status role.
pub open spec fn is_fixed_field(name: Seq<char>) -> bool {
    ||| slice_views(FOUNDATION_FIELDS@).contains(name)
    ||| slice_views(CHROME_FIELDS@).contains(name)
    ||| slice_views(EDITOR_FIELDS@).contains(name)
    ||| slice_views(TERMINAL_FIELDS@).contains(name)
    ||| slice_views(LINK_VC_FIELDS@).contains(name)
    ||| slice_views(VIM_FIELDS@).contains(name)
}

/// Whether `name` is one of the three roles of the status at `index`.
pub open spec fn is_field_of_status(index: int, name: Seq<char>) -> bool {
    let status = STATUS_NAMES@[index]@;
    &&& 0 <= index < STATUS_NAMES@.len()
    &&& name == status || name == status + ".background"@ || name == status + ".border"@
}

/// Whether `name` is a role of a status.
pub open spec fn is_status_field(name: Seq<char>) -> bool {
    exists|index: int| is_field_of_status(index, name)
}

/// Whether `name` is a field of a style.
pub open spec fn is_style_field(name: Seq<char>) -> bool {
    ||| is_fixed_field(name)
    ||| is_status_field(name)
    ||| name == "background.appearance"@
    ||| name == "accents"@
    ||| name == "players"@
    ||| name == "syntax"@
}

/// What is wrong with the color role `name`.
pub open spec fn role_fault(style: Map<Seq<char>, Json>, name: Seq<char>) -> Option<Seq<char>> {
    match text_at(style, name) {
        Some(color) => if is_hex(color) {
            None
        } else {
            Some(invalid_hex_message(color))
        },
        None => Some("generated theme role "@ + name + " is not a color"@),
    }
}

/// What is wrong with the accent at `index`.
pub open spec fn accent_fault(accents: Seq<Json>, index: int) -> Option<Seq<char>> {
    match accents[index].text_view() {
        Some(color) => if is_hex(color) {
            None
        } else {
            Some(invalid_hex_message(color))
        },
        None => Some("generated accent "@ + decimal_of(index as nat) + " is not a color"@),
    }
}

/// What is wrong with one color of the player at `index`.
pub open spec fn player_color_fault(
    player: Map<Seq<char>, Json>,
    index: int,
    role: Seq<char>,
) -> Option<Seq<char>> {
    match text_at(player, role) {
        Some(color) => if is_hex(color) {
            None
        } else {
            Some(invalid_hex_message(color))
        },
        None => Some(
            "generated player "@ + decimal_of(index as nat) + "."@ + role + " is not a color"@,
        ),
    }
}

/// What is wrong with the player at `index`.
pub open spec fn player_fault(players: Seq<Json>, index: int) -> Option<Seq<char>> {
    match players[index].object_view() {
        None => Some("generated player "@ + decimal_of(index as nat) + " is not an object"@),
        Some(player) => if player.dom().len() != 3 {
            Some(
                "generated player "@ + decimal_of(index as nat)
                    + " must contain cursor, background, and selection"@,
            )
        } else if player_color_fault(player, index, "cursor"@) is Some {
            player_color_fault(player, index, "cursor"@)
        } else if player_color_fault(player, index, "background"@) is Some {
            player_color_fault(player, index, "background"@)
        } else {
            player_color_fault(player, index, "selection"@)
        },
    }
}

/// What is wrong with the style of the capture `name`.
pub open spec fn capture_fault(syntax: Map<Seq<char>, Json>, name: Seq<char>) -> Option<Seq<char>> {
    let color = match syntax[name].object_view() {
        Some(style) => text_at(style, "color"@),
        None => None,
    };
    match color {
        Some(color) => if is_hex(color) {
            None
        } else {
            Some(invalid_hex_message(color))
        },
        None => Some("generated syntax."@ + name + " has no color"@),
    }
}

/// Whether `faults` gives `message` for the first of the faulty names, in text
/// order.
pub open spec fn is_first_fault(
    faults: spec_fn(Seq<char>) -> Option<Seq<char>>,
    names: Set<Seq<char>>,
    message: Seq<char>,
) -> bool {
    exists|name: Seq<char>| is_first_faulty(faults, names, name) && faults(name) == Some(message)
}

/// Whether `name` is the first of the faulty names, in text order.
pub open spec fn is_first_faulty(
    faults: spec_fn(Seq<char>) -> Option<Seq<char>>,
    names: Set<Seq<char>>,
    name: Seq<char>,
) -> bool {
    &&& names.contains(name)
    &&& faults(name) is Some
    &&& forall|other: Seq<char>|
        #[trigger] names.contains(other) && faults(other) is Some ==> other == name || text_before(
            name,
            other,
        )
}

/// Whether none of the names is faulty.
pub open spec fn is_faultless(
    faults: spec_fn(Seq<char>) -> Option<Seq<char>>,
    names: Set<Seq<char>>,
) -> bool {
    forall|name: Seq<char>| #[trigger] names.contains(name) ==> faults(name) is None
}

/// The color roles that are no status roles.
pub open spec fn fixed_fields() -> Set<Seq<char>> {
    Set::new(|name: Seq<char>| is_fixed_field(name))
}

/// The roles of the statuses.
pub open spec fn status_fields() -> Set<Seq<char>> {
    Set::new(|name: Seq<char>| is_status_field(name))
}

/// The fields of a style.
pub open spec fn style_fields() -> Set<Seq<char>> {
    Set::new(|name: Seq<char>| is_style_field(name))
}

pub open spec fn root_fields() -> Set<Seq<char>> {
    set!["$schema"@, "author"@, "name"@, "themes"@]
}

pub open spec fn entry_fields() -> Set<Seq<char>> {
    set!["appearance"@, "name"@, "style"@]
}

/// The style of a theme entry is complete: its fields are exactly the schema's and
/// every color in it is a hex color.
pub open spec fn is_valid_style(style: Map<Seq<char>, Json>) -> bool {
    &&& style.dom() == style_fields()
    &&& is_faultless(|name: Seq<char>| role_fault(style, name), fixed_fields())
    &&& is_faultless(|name: Seq<char>| role_fault(style, name), status_fields())
    &&& text_at(style, "background.appearance"@) == Some("opaque"@)
    &&& list_at(style, "accents"@) matches Some(accents) && accents.len() == 12 && forall|i: int|
        0 <= i < 12 ==> #[trigger] accent_fault(accents, i) is None
    &&& list_at(style, "players"@) matches Some(players) && players.len() == 8 && forall|i: int|
        0 <= i < 8 ==> #[trigger] player_fault(players, i) is None
    &&& object_at(style, "syntax"@) matches Some(syntax) && syntax.dom() == capture_names().to_set()
        && is_faultless(|name: Seq<char>| capture_fault(syntax, name), syntax.dom())
}

/// A theme entry is complete.
pub open spec fn is_valid_entry(theme: Map<Seq<char>, Json>) -> bool {
    &&& theme.dom() == entry_fields()
    &&& text_at(theme, "name"@) == Some(THEME_NAME@)
    &&& text_at(theme, "appearance"@) == Some("dark"@) || text_at(theme, "appearance"@) == Some(
        "light"@,
    )
    &&& object_at(theme, "style"@) matches Some(style) && is_valid_style(style)
}

/// The metadata of the document is the schema's.
pub open spec fn is_valid_root(root: Map<Seq<char>, Json>) -> bool {
    &&& root.dom() == root_fields()
    &&& text_at(root, "$schema"@) == Some(SCHEMA_URL@)
    &&& text_at(root, "name"@) == Some(THEME_NAME@)
    &&& text_at(root, "author"@) == Some("APS"@)
}

/// The one theme that the document holds.
pub open spec fn theme_entry(root: Map<Seq<char>, Json>) -> Option<Map<Seq<char>, Json>> {
    match list_at(root, "themes"@) {
        Some(themes) => if themes.len() == 1 {
            themes[0].object_view()
        } else {
            None
        },
        None => None,
    }
}

/// The document is a complete theme.
pub open spec fn is_valid_theme(document: Json) -> bool {
    match document.object_view() {
        Some(root) => is_valid_root(root) && match theme_entry(root) {
            Some(theme) => is_valid_entry(theme),
            None => false,
        },
        None => false,
    }
}

/// Whether `message` reports the first accent that is no color.
pub open spec fn is_accent_error(accents: Seq<Json>, message: Seq<char>) -> bool {
    exists|index: int|
        {
            &&& 0 <= index < accents.len()
            &&& #[trigger] accent_fault(accents, index) == Some(message)
            &&& forall|i: int| 0 <= i < index ==> #[trigger] accent_fault(accents, i) is None
        }
}

/// Whether `message` reports the first incomplete player.
pub open spec fn is_player_error(players: Seq<Json>, message: Seq<char>) -> bool {
    exists|index: int|
        {
            &&& 0 <= index < players.len()
            &&& #[trigger] player_fault(players, index) == Some(message)
            &&& forall|i: int| 0 <= i < index ==> #[trigger] player_fault(players, i) is None
        }
}

/// Whether `message` reports the first fault of a style, in the order in which
/// its parts are checked.
pub open spec fn is_style_error(style: Map<Seq<char>, Json>, message: Seq<char>) -> bool {
    let roles = |name: Seq<char>| role_fault(style, name);
    if style.dom() != style_fields() {
        message == "generated style manifest does not match its schema"@
    } else if !is_faultless(roles, fixed_fields()) {
        is_first_fault(roles, fixed_fields(), message)
    } else if !is_faultless(roles, status_fields()) {
        is_first_fault(roles, status_fields(), message)
    } else if text_at(style, "background.appearance"@) != Some("opaque"@) {
        message == "generated background appearance must be opaque"@
    } else {
        match list_at(style, "accents"@) {
            None => message == "generated accents must be an array"@,
            Some(accents) => if accents.len() != 12 {
                message == "generated theme must contain 12 accents"@
            } else if exists|i: int| 0 <= i < 12 && #[trigger] accent_fault(accents, i) is Some {
                is_accent_error(accents, message)
            } else {
                is_tail_error(style, message)
            },
        }
    }
}

/// Whether `message` reports the first fault of the players or the syntax.
pub open spec fn is_tail_error(style: Map<Seq<char>, Json>, message: Seq<char>) -> bool {
    match list_at(style, "players"@) {
        None => message == "generated players must be an array"@,
        Some(players) => if players.len() != 8 {
            message == "generated theme must contain 8 players"@
        } else if exists|i: int| 0 <= i < 8 && #[trigger] player_fault(players, i) is Some {
            is_player_error(players, message)
        } else {
            match object_at(style, "syntax"@) {
                None => message == "generated syntax must be an object"@,
                Some(syntax) => if syntax.dom() != capture_names().to_set() {
                    message == "generated syntax manifest does not match capture policy"@
                } else {
                    is_first_fault(
                        |name: Seq<char>| capture_fault(syntax, name),
                        syntax.dom(),
                        message,
                    )
                },
            }
        },
    }
}

/// Whether `message` reports the first fault of a theme entry.
pub open spec fn is_entry_error(theme: Map<Seq<char>, Json>, message: Seq<char>) -> bool {
    if theme.dom() != entry_fields() || text_at(theme, "name"@) != Some(THEME_NAME@) {
        message == "generated theme entry manifest does not match its schema"@
    } else {
        match text_at(theme, "appearance"@) {
            None => message == "generated theme appearance must be a string"@,
            Some(appearance) => if appearance != "dark"@ && appearance != "light"@ {
                message == "generated theme appearance must be dark or light, got "@ + debug_text(
                    appearance,
                )
            } else {
                match object_at(theme, "style"@) {
                    None => message == "generated theme style must be an object"@,
                    Some(style) => is_style_error(style, message),
                }
            },
        }
    }
}

/// Whether `message` reports the first fault of the document, in the order in
/// which its parts are checked.
pub open spec fn is_theme_error(document: Json, message: Seq<char>) -> bool {
    match document.object_view() {
        None => message == "generated theme document must be an object"@,
        Some(root) => if root.dom() != root_fields() {
            message == "generated theme document manifest does not match its schema"@
        } else if text_at(root, "$schema"@) != Some(SCHEMA_URL@) || text_at(root, "name"@) != Some(
            THEME_NAME@,
        ) || text_at(root, "author"@) != Some("APS"@) {
            message == "generated theme document metadata does not match its schema"@
        } else {
            match list_at(root, "themes"@) {
                None => message == "generated themes must be an array"@,
                Some(themes) => if themes.len() != 1 {
                    message == "generated theme document must contain exactly one theme"@
                } else {
                    match themes[0].object_view() {
                        None => message == "generated theme entry must be an object"@,
                        Some(theme) => is_entry_error(theme, message),
                    }
                },
            }
        },
    }
}

fn invalid<T>(message: &str) -> (result: Result<T>)
    ensures
        result matches Err(error) && error.is_invalid(message@),
{
    Err(Error::invalid(message.to_owned()))
}

fn is_text(value: Option<&str>, expected: &str) -> (same: bool)
    ensures
        same == (value matches Some(text) && text@ == expected@),
{
    match value {
        Some(text) => same_text(text, expected),
        None => false,
    }
}

fn set_of(names: &[&str]) -> (set: TextMap<()>)
    ensures
        set@.dom() == slice_views(names@).to_set(),
{
    let mut set: TextMap<()> = TextMap::new();
    add_names(&mut set, names);
    assert(set@.dom() =~= slice_views(names@).to_set());
    set
}

/// The color roles that are no status roles.
fn fixed_set() -> (set: TextMap<()>)
    ensures
        set@.dom() == fixed_fields(),
{
    let mut set: TextMap<()> = TextMap::new();
    add_names(&mut set, &FOUNDATION_FIELDS);
    add_names(&mut set, &CHROME_FIELDS);
    add_names(&mut set, &EDITOR_FIELDS);
    add_names(&mut set, &TERMINAL_FIELDS);
    add_names(&mut set, &LINK_VC_FIELDS);
    add_names(&mut set, &VIM_FIELDS);
    assert(set@.dom() =~= fixed_fields());
    set
}

/// The roles of the statuses.
fn status_set() -> (set: TextMap<()>)
    ensures
        set@.dom() == status_fields(),
{
    let mut set: TextMap<()> = TextMap::new();
    let mut index: usize = 0;
    while index < STATUS_NAMES.len()
        invariant
            index <= STATUS_NAMES@.len(),
            set@.dom() =~= Set::new(
                |name: Seq<char>| exists|i: int| i < index && #[trigger] is_field_of_status(i, name),
            ),
        decreases STATUS_NAMES@.len() - index,
    {
        let ghost before = set@.dom();
        let status = STATUS_NAMES[index];
        let mut background = status.to_owned();
        background.append(".background");
        let mut border = status.to_owned();
        border.append(".border");
        set.insert(status.to_owned(), ());
        set.insert(background, ());
        set.insert(border, ());
        let ghost expected = Set::new(
            |name: Seq<char>| exists|i: int| i < index + 1 && #[trigger] is_field_of_status(i, name),
        );
        assert forall|name: Seq<char>| set@.dom().contains(name) == expected.contains(name) by {
            if before.contains(name) {
                let i = choose|i: int| i < index && #[trigger] is_field_of_status(i, name);
                assert(i < index + 1 && is_field_of_status(i, name));
            }
            if name == status@ || name == status@ + ".background"@ || name == status@
                + ".border"@ {
                assert(is_field_of_status(index as int, name));
            }
            if expected.contains(name) {
                let i = choose|i: int| i < index + 1 && #[trigger] is_field_of_status(i, name);
                if i < index {
                    assert(before.contains(name));
                }
            }
        }
        index += 1;
    }
    assert(set@.dom() =~= status_fields()) by {
        assert forall|name: Seq<char>| is_status_field(name) == (exists|i: int|
            i < index && #[trigger] is_field_of_status(i, name)) by {
            if is_status_field(name) {
                let i = choose|i: int| is_field_of_status(i, name);
                assert(i < index && is_field_of_status(i, name));
            }
        }
    }
    set
}

/// Checks that every role in `names` holds a color.
fn check_roles(style: &TextMap<Json>, names: &TextMap<()>) -> (result: Result<()>)
    ensures
        result is Ok <==> is_faultless(|name: Seq<char>| role_fault(style@, name), names@.dom()),
        result matches Err(error) ==> error.is_invalid(error.message_view()) && is_first_fault(
            |name: Seq<char>| role_fault(style@, name),
            names@.dom(),
            error.message_view(),
        ),
{
    let ghost faults = |name: Seq<char>| role_fault(style@, name);
    let count = names.len();
    let mut index: usize = 0;
    while index < count
        invariant
            count == names.listed().len(),
            keys_ascend(names.listed()),
            names@ == entry_map(names.listed()),
            index <= count,
            faults == (|name: Seq<char>| role_fault(style@, name)),
            forall|i: int| 0 <= i < index ==> faults((#[trigger] names.listed()[i]).0@) is None,
        decreases count - index,
    {
        let (name, _) = names.entry(index);
        let fault = match get_text(style, name.as_str()) {
            Some(color) => match parse_hex(color) {
                Ok(_) => None,
                Err(error) => Some(error),
            },
            None => {
                let mut message = "generated theme role ".to_owned();
                message.append(name.as_str());
                message.append(" is not a color");
                Some(Error::invalid(message))
            },
        };
        if let Some(error) = fault {
            proof {
                lemma_first_of_listed(faults, names.listed(), index as int);
                assert(is_first_faulty(faults, names@.dom(), name@));
                assert(faults(name@) == Some(error.message_view()));
            }
            return Err(error);
        }
        index += 1;
    }
    assert forall|name: Seq<char>| #[trigger] names@.dom().contains(name) implies faults(
        name,
    ) is None by {
        let at = key_index(names.listed(), name);
        assert(names.listed()[at].0@ == name);
    }
    Ok(())
}

/// The first listed key that is faulty is the first faulty key in text order.
proof fn lemma_first_of_listed<V>(
    faults: spec_fn(Seq<char>) -> Option<Seq<char>>,
    entries: Seq<(String, V)>,
    index: int,
)
    requires
        keys_ascend(entries),
        0 <= index < entries.len(),
        faults(entries[index].0@) is Some,
        forall|i: int| 0 <= i < index ==> faults((#[trigger] entries[i]).0@) is None,
    ensures
        is_first_faulty(faults, entry_map(entries).dom(), entries[index].0@),
{
    let name = entries[index].0@;
    let names = entry_map(entries).dom();
    assert(names.contains(name)) by {
        assert(entries[index].0@ == name);
    }
    assert forall|other: Seq<char>| #[trigger]
        names.contains(other) && faults(other) is Some implies other == name || text_before(
        name,
        other,
    ) by {
        let at = key_index(entries, other);
        assert(entries[at].0@ == other);
        if at > index {
            assert(text_before(entries[index].0@, entries[at].0@));
        }
    }
}

fn numbered(before: &str, index: usize, after: &str) -> (message: String)
    ensures
        message@ == before@ + decimal_of(index as nat) + after@,
{
    let mut message = before.to_owned();
    message.append(decimal(index).as_str());
    message.append(after);
    message
}

fn check_accents(accents: &Vec<Json>) -> (result: Result<()>)
    ensures
        result is Ok <==> forall|i: int|
            0 <= i < accents@.len() ==> #[trigger] accent_fault(accents@, i) is None,
        result matches Err(error) ==> error.is_invalid(error.message_view()) && is_accent_error(
            accents@,
            error.message_view(),
        ),
{
    let mut index: usize = 0;
    while index < accents.len()
        invariant
            index <= accents@.len(),
            forall|i: int| 0 <= i < index ==> #[trigger] accent_fault(accents@, i) is None,
        decreases accents@.len() - index,
    {
        match accents[index].as_str() {
            Some(color) => match parse_hex(color) {
                Ok(_) => {},
                Err(error) => {
                    assert(accent_fault(accents@, index as int) == Some(error.message_view()));
                    return Err(error);
                },
            },
            None => {
                let message = numbered("generated accent ", index, " is not a color");
                assert(accent_fault(accents@, index as int) == Some(message@));
                return Err(Error::invalid(message));
            },
        }
        assert(accent_fault(accents@, index as int) is None);
        index += 1;
    }
    Ok(())
}

fn check_player_color(player: &TextMap<Json>, index: usize, role: &str) -> (result: Result<()>)
    ensures
        result is Ok <==> player_color_fault(player@, index as int, role@) is None,
        result matches Err(error) ==> error.is_invalid(error.message_view()) && Some(
            error.message_view(),
        ) == player_color_fault(player@, index as int, role@),
{
    match get_text(player, role) {
        Some(color) => match parse_hex(color) {
            Ok(_) => Ok(()),
            Err(error) => Err(error),
        },
        None => {
            let mut message = numbered("generated player ", index, ".");
            message.append(role);
            message.append(" is not a color");
            Err(Error::invalid(message))
        },
    }
}

fn check_player(players: &Vec<Json>, index: usize) -> (result: Result<()>)
    requires
        index < players@.len(),
    ensures
        result is Ok <==> player_fault(players@, index as int) is None,
        result matches Err(error) ==> error.is_invalid(error.message_view()) && Some(
            error.message_view(),
        ) == player_fault(players@, index as int),
{
    let player = match players[index].as_object() {
        Some(player) => player,
        None => {
            return Err(
                Error::invalid(numbered("generated player ", index, " is not an object")),
            );
        },
    };
    if player.len() != 3 {
        return Err(
            Error::invalid(
                numbered(
                    "generated player ",
                    index,
                    " must contain cursor, background, and selection",
                ),
            ),
        );
    }
    check_player_color(player, index, "cursor")?;
    check_player_color(player, index, "background")?;
    check_player_color(player, index, "selection")
}

fn check_players(players: &Vec<Json>) -> (result: Result<()>)
    ensures
        result is Ok <==> forall|i: int|
            0 <= i < players@.len() ==> #[trigger] player_fault(players@, i) is None,
        result matches Err(error) ==> error.is_invalid(error.message_view()) && is_player_error(
            players@,
            error.message_view(),
        ),
{
    let mut index: usize = 0;
    while index < players.len()
        invariant
            index <= players@.len(),
            forall|i: int| 0 <= i < index ==> #[trigger] player_fault(players@, i) is None,
        decreases players@.len() - index,
    {
        check_player(players, index)?;
        index += 1;
    }
    Ok(())
}

fn color_of(value: &Json) -> (color: Option<&str>)
    ensures
        color is Some <==> (value.object_view() matches Some(style) && text_at(
            style,
            "color"@,
        ) is Some),
        color matches Some(color) ==> (value.object_view() matches Some(style) && text_at(
            style,
            "color"@,
        ) == Some(color@)),
{
    match value.as_object() {
        Some(style) => get_text(style, "color"),
        None => None,
    }
}

fn check_syntax(syntax: &TextMap<Json>) -> (result: Result<()>)
    ensures
        result is Ok <==> is_faultless(
            |name: Seq<char>| capture_fault(syntax@, name),
            syntax@.dom(),
        ),
        result matches Err(error) ==> error.is_invalid(error.message_view()) && is_first_fault(
            |name: Seq<char>| capture_fault(syntax@, name),
            syntax@.dom(),
            error.message_view(),
        ),
{
    let ghost faults = |name: Seq<char>| capture_fault(syntax@, name);
    let count = syntax.len();
    let mut index: usize = 0;
    while index < count
        invariant
            count == syntax.listed().len(),
            keys_ascend(syntax.listed()),
            syntax@ == entry_map(syntax.listed()),
            index <= count,
            faults == (|name: Seq<char>| capture_fault(syntax@, name)),
            forall|i: int| 0 <= i < index ==> faults((#[trigger] syntax.listed()[i]).0@) is None,
        decreases count - index,
    {
        let (name, value) = syntax.entry(index);
        let fault = match color_of(value) {
            Some(color) => match parse_hex(color) {
                Ok(_) => None,
                Err(error) => Some(error),
            },
            None => {
                let mut message = "generated syntax.".to_owned();
                message.append(name.as_str());
                message.append(" has no color");
                Some(Error::invalid(message))
            },
        };
        if let Some(error) = fault {
            proof {
                lemma_first_of_listed(faults, syntax.listed(), index as int);
                assert(is_first_faulty(faults, syntax@.dom(), name@));
                assert(faults(name@) == Some(error.message_view()));
            }
            return Err(error);
        }
        index += 1;
    }
    assert forall|name: Seq<char>| #[trigger] syntax@.dom().contains(name) implies faults(
        name,
    ) is None by {
        let at = key_index(syntax.listed(), name);
        assert(syntax.listed()[at].0@ == name);
    }
    Ok(())
}

fn check_tail(style: &TextMap<Json>) -> (result: Result<()>)
    ensures
        result is Ok <==> {
            &&& list_at(style@, "players"@) matches Some(players) && players.len() == 8
                && forall|i: int| 0 <= i < 8 ==> #[trigger] player_fault(players, i) is None
            &&& object_at(style@, "syntax"@) matches Some(syntax) && syntax.dom()
                == capture_names().to_set() && is_faultless(
                |name: Seq<char>| capture_fault(syntax, name),
                syntax.dom(),
            )
        },
        result matches Err(error) ==> error.is_invalid(error.message_view()) && is_tail_error(
            style@,
            error.message_view(),
        ),
{
    let players = match get_list(style, "players") {
        Some(players) => players,
        None => {
            return invalid("generated players must be an array");
        },
    };
    if players.len() != 8 {
        return invalid("generated theme must contain 8 players");
    }
    check_players(players)?;
    let syntax = match get_object(style, "syntax") {
        Some(syntax) => syntax,
        None => {
            return invalid("generated syntax must be an object");
        },
    };
    if !same_keys(syntax, &capture_set()) {
        return invalid("generated syntax manifest does not match capture policy");
    }
    check_syntax(syntax)
}

/// The captures that the theme colors.
fn capture_set() -> (set: TextMap<()>)
    ensures
        set@.dom() == capture_names().to_set(),
{
    let policies = capture_policies();
    let mut set: TextMap<()> = TextMap::new();
    let mut index: usize = 0;
    while index < policies.len()
        invariant
            policies@.len() == capture_names().len(),
            forall|i: int|
                0 <= i < policies@.len() ==> (#[trigger] policies@[i]).capture@
                    == capture_names()[i],
            index <= policies@.len(),
            set@.dom() == capture_names().take(index as int).to_set(),
        decreases policies@.len() - index,
    {
        set.insert(policies[index].capture.to_owned(), ());
        proof {
            let taken = capture_names().take(index as int);
            lemma_set_of_push(taken, capture_names()[index as int]);
            assert(capture_names().take(index + 1) =~= taken.push(capture_names()[index as int]));
        }
        index += 1;
    }
    assert(capture_names().take(index as int) =~= capture_names());
    set
}

/// The fields of a style.
fn style_set() -> (set: TextMap<()>)
    ensures
        set@.dom() == style_fields(),
{
    let mut set = fixed_set();
    let statuses = status_set();
    let count = statuses.len();
    let mut index: usize = 0;
    while index < count
        invariant
            count == statuses.listed().len(),
            statuses@ == entry_map(statuses.listed()),
            statuses@.dom() == status_fields(),
            index <= count,
            fixed_fields().subset_of(set@.dom()),
            set@.dom().subset_of(fixed_fields().union(status_fields())),
            forall|i: int| 0 <= i < index ==> set@.contains_key((#[trigger] statuses.listed()[i]).0@),
        decreases count - index,
    {
        let (name, _) = statuses.entry(index);
        set.insert(name.clone(), ());
        index += 1;
    }
    assert(set@.dom() =~= fixed_fields().union(status_fields())) by {
        assert forall|name: Seq<char>| status_fields().contains(name) implies set@.dom().contains(
            name,
        ) by {
            let at = key_index(statuses.listed(), name);
            assert(statuses.listed()[at].0@ == name);
        }
    }
    add_names(&mut set, &["background.appearance", "accents", "players", "syntax"]);
    assert(slice_views(["background.appearance", "accents", "players", "syntax"]@) =~= seq![
        "background.appearance"@,
        "accents"@,
        "players"@,
        "syntax"@,
    ]);
    assert(set@.dom() =~= style_fields());
    set
}

fn check_style(style: &TextMap<Json>) -> (result: Result<()>)
    ensures
        result is Ok <==> is_valid_style(style@),
        result matches Err(error) ==> error.is_invalid(error.message_view()) && is_style_error(
            style@,
            error.message_view(),
        ),
{
    if !same_keys(style, &style_set()) {
        return invalid("generated style manifest does not match its schema");
    }
    check_roles(style, &fixed_set())?;
    check_roles(style, &status_set())?;
    if !is_text(get_text(style, "background.appearance"), "opaque") {
        return invalid("generated background appearance must be opaque");
    }
    let accents = match get_list(style, "accents") {
        Some(accents) => accents,
        None => {
            return invalid("generated accents must be an array");
        },
    };
    if accents.len() != 12 {
        return invalid("generated theme must contain 12 accents");
    }
    check_accents(accents)?;
    check_tail(style)
}

fn check_entry(theme: &TextMap<Json>) -> (result: Result<()>)
    ensures
        result is Ok <==> is_valid_entry(theme@),
        result matches Err(error) ==> error.is_invalid(error.message_view()) && is_entry_error(
            theme@,
            error.message_view(),
        ),
{
    let expected = set_of(&["appearance", "name", "style"]);
    assert(slice_views(["appearance", "name", "style"]@) =~= seq![
        "appearance"@,
        "name"@,
        "style"@,
    ]);
    assert(expected@.dom() =~= entry_fields());
    if !same_keys(theme, &expected) || !is_text(get_text(theme, "name"), THEME_NAME) {
        return invalid("generated theme entry manifest does not match its schema");
    }
    let appearance = match get_text(theme, "appearance") {
        Some(appearance) => appearance,
        None => {
            return invalid("generated theme appearance must be a string");
        },
    };
    if !same_text(appearance, "dark") && !same_text(appearance, "light") {
        let mut message = "generated theme appearance must be dark or light, got ".to_owned();
        message.append(quoted(appearance).as_str());
        return Err(Error::invalid(message));
    }
    match get_object(theme, "style") {
        Some(style) => check_style(style),
        None => invalid("generated theme style must be an object"),
    }
}

/// Accepts exactly the complete theme documents.
pub fn validate_theme_structure(document: &Json) -> (result: Result<()>)
    ensures
        result is Ok <==> is_valid_theme(*document),
        result matches Err(error) ==> error.is_invalid(error.message_view()) && is_theme_error(
            *document,
            error.message_view(),
        ),
{
    let root = match document.as_object() {
        Some(root) => root,
        None => {
            return invalid("generated theme document must be an object");
        },
    };
    let expected = set_of(&["$schema", "author", "name", "themes"]);
    assert(slice_views(["$schema", "author", "name", "themes"]@) =~= seq![
        "$schema"@,
        "author"@,
        "name"@,
        "themes"@,
    ]);
    assert(expected@.dom() =~= root_fields());
    if !same_keys(root, &expected) {
        return invalid("generated theme document manifest does not match its schema");
    }
    if !is_text(get_text(root, "$schema"), SCHEMA_URL) || !is_text(
        get_text(root, "name"),
        THEME_NAME,
    ) || !is_text(get_text(root, "author"), "APS") {
        return invalid("generated theme document metadata does not match its schema");
    }
    let themes = match get_list(root, "themes") {
        Some(themes) => themes,
        None => {
            return invalid("generated themes must be an array");
        },
    };
    if themes.len() != 1 {
        return invalid("generated theme document must contain exactly one theme");
    }
    match themes[0].as_object() {
        Some(theme) => check_entry(theme),
        None => invalid("generated theme entry must be an object"),
    }
}

} // verus!
