//! Which color of the palette or of the theme a role starts from.

use crate::text::{decimal, decimal_of};
use crate::theme::style::SemanticColors;
use vstd::prelude::*;

verus! {

/// A role of the content that is fainter than its primary text.
#[derive(Clone, Copy, Debug, PartialEq, Eq, Structural)]
pub enum ContentRole {
    Secondary,
    Placeholder,
    Disabled,
    IconMuted,
    IconPlaceholder,
    IconDisabled,
}

impl ContentRole {
    /// The color of the palette that the role starts from.
    pub open spec fn seed_view(self) -> Seq<char> {
        match self {
            ContentRole::Secondary | ContentRole::IconMuted => "muted"@,
            _ => "dark_foreground"@,
        }
    }

    /// The color of the palette that the role starts from.
    pub fn seed(self) -> (key: &'static str)
        ensures
            key@ == self.seed_view(),
    {
        match self {
            ContentRole::Secondary | ContentRole::IconMuted => "muted",
            _ => "dark_foreground",
        }
    }

    /// The role that this one never stands out more than, if it is not the primary text.
    pub open spec fn above(self) -> Option<ContentRole> {
        match self {
            ContentRole::Secondary | ContentRole::IconMuted => None,
            ContentRole::Placeholder => Some(ContentRole::Secondary),
            ContentRole::Disabled => Some(ContentRole::Placeholder),
            ContentRole::IconPlaceholder => Some(ContentRole::IconMuted),
            ContentRole::IconDisabled => Some(ContentRole::IconPlaceholder),
        }
    }

    /// The role that this one never stands out more than, if it is not the primary text.
    pub fn ceiling(self) -> (role: Option<ContentRole>)
        ensures
            role == self.above(),
    {
        match self {
            ContentRole::Secondary | ContentRole::IconMuted => None,
            ContentRole::Placeholder => Some(ContentRole::Secondary),
            ContentRole::Disabled => Some(ContentRole::Placeholder),
            ContentRole::IconPlaceholder => Some(ContentRole::IconMuted),
            ContentRole::IconDisabled => Some(ContentRole::IconPlaceholder),
        }
    }

    /// How many roles stand between this one and the primary text.
    pub open spec fn faintness(self) -> nat {
        match self {
            ContentRole::Secondary | ContentRole::IconMuted => 0,
            ContentRole::Placeholder | ContentRole::IconPlaceholder => 1,
            ContentRole::Disabled | ContentRole::IconDisabled => 2,
        }
    }
}

/// Every ceiling is less faint than what it limits, so that all of them can be fitted one
/// after the other.
pub proof fn lemma_ceilings_come_first(role: ContentRole)
    ensures
        role.above() matches Some(above) ==> above.faintness() < role.faintness(),
        role.above() is None <==> role.faintness() == 0,
{
}

/// The palette's name of a terminal color.
pub open spec fn ansi_key(number: nat) -> Seq<char> {
    "color"@ + decimal_of(number)
}

fn ansi_name(number: usize) -> (key: String)
    ensures
        key@ == ansi_key(number as nat),
{
    let mut key = "color".to_owned();
    key.append(decimal(number).as_str());
    key
}

/// The colors of the palette that the dim, the normal and the bright strength of a
/// terminal color start from: the bright ones come behind all normal ones.
pub open spec fn ansi_keys(number: nat) -> (Seq<char>, Seq<char>, Seq<char>) {
    (ansi_key(number), ansi_key(number), ansi_key(number + 8))
}

/// The colors of the palette that the strengths of a terminal color start from.
pub fn ansi_seeds(number: usize) -> (keys: (String, String, String))
    requires
        number < 8,
    ensures
        keys.0@ == ansi_key(number as nat),
        keys.1@ == ansi_key(number as nat),
        keys.2@ == ansi_key((number + 8) as nat),
        (keys.0@, keys.1@, keys.2@) == ansi_keys(number as nat),
{
    (ansi_name(number), ansi_name(number), ansi_name(number + 8))
}

/// A status whose colors are painted.
#[derive(Clone, Copy, Debug, PartialEq, Eq, Structural)]
pub enum StatusRole {
    Created,
    Deleted,
    Warning,
    Hidden,
    Hint,
    Info,
    /// Statuses that say that something matters less.
    Quiet,
}

/// The seeds of changes, in their conventional hues.
#[derive(Clone, Debug)]
pub struct ChangeSeeds {
    pub added: String,
    pub deleted: String,
    pub modified: String,
}

/// What a status starts from: a change from its own seed, everything else from a color of
/// the theme.
pub open spec fn status_seed_view(
    role: StatusRole,
    semantic: SemanticColors,
    changes: ChangeSeeds,
) -> Seq<char> {
    match role {
        StatusRole::Created => changes.added@,
        StatusRole::Deleted => changes.deleted@,
        StatusRole::Warning => changes.modified@,
        StatusRole::Hidden => semantic.disabled@,
        StatusRole::Hint => semantic.cyan@,
        StatusRole::Info => semantic.accent@,
        StatusRole::Quiet => semantic.secondary@,
    }
}

/// What a status starts from.
pub fn status_seed<'a>(
    role: StatusRole,
    semantic: &'a SemanticColors,
    changes: &'a ChangeSeeds,
) -> (seed: &'a str)
    ensures
        seed@ == status_seed_view(role, *semantic, *changes),
{
    match role {
        StatusRole::Created => changes.added.as_str(),
        StatusRole::Deleted => changes.deleted.as_str(),
        StatusRole::Warning => changes.modified.as_str(),
        StatusRole::Hidden => semantic.disabled.as_str(),
        StatusRole::Hint => semantic.cyan.as_str(),
        StatusRole::Info => semantic.accent.as_str(),
        StatusRole::Quiet => semantic.secondary.as_str(),
    }
}

} // verus!
