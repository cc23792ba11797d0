//! Generates an Omarchy-coloured theme for the Zed editor.
//!
//! The crate decides how colors are parsed, packed and composited, how a resolved
//! palette is read, what each role is fitted from, how candidates are ranked and
//! selected, how syntax families are planned, how the theme document is assembled,
//! checked and written, how output is published and how the editor's settings are
//! switched and restored. Perceptual measurements, and the bands and limits that
//! follow from them, are binary64 numbers; they reach this crate as
//! [`scalar::Scalar`] values.

pub mod color;
pub mod constants;
pub mod json;
pub mod json_bytes;
pub mod json_value;
pub mod map;
pub mod order;
pub mod palette;
pub mod publish;
pub mod scalar;
pub mod search;
pub mod syntax;
pub mod text;
pub mod theme;
pub mod zed_settings;

use vstd::prelude::*;

verus! {

/// What kind of failure an [`Error`] reports.
#[derive(Clone, Copy, Debug, PartialEq, Eq, Structural)]
pub enum ErrorKind {
    InvalidInput,
    Infeasible,
    External,
}

/// A failure with its kind and the message shown to the user.
#[derive(Clone, Debug)]
pub struct Error {
    kind: ErrorKind,
    message: String,
}

pub type Result<T> = core::result::Result<T, Error>;

impl Error {
    /// The kind of this error.
    pub closed spec fn kind_view(&self) -> ErrorKind {
        self.kind
    }

    /// The message of this error.
    pub closed spec fn message_view(&self) -> Seq<char> {
        self.message@
    }

    /// Whether this is an invalid-input error with the given message.
    pub open spec fn is_invalid(&self, message: Seq<char>) -> bool {
        self.kind_view() == ErrorKind::InvalidInput && self.message_view() == message
    }

    /// Whether this is an external error with the given message.
    pub open spec fn is_external(&self, message: Seq<char>) -> bool {
        self.kind_view() == ErrorKind::External && self.message_view() == message
    }

    pub fn invalid(message: String) -> (error: Self)
        ensures
            error.is_invalid(message@),
    {
        Error { kind: ErrorKind::InvalidInput, message }
    }

    pub fn infeasible(message: String) -> (error: Self)
        ensures
            error.kind_view() == ErrorKind::Infeasible,
            error.message_view() == message@,
    {
        Error { kind: ErrorKind::Infeasible, message }
    }

    pub fn external(message: String) -> (error: Self)
        ensures
            error.is_external(message@),
    {
        Error { kind: ErrorKind::External, message }
    }

    pub fn kind(&self) -> (kind: ErrorKind)
        ensures
            kind == self.kind_view(),
    {
        self.kind
    }

    /// The message shown to the user.
    pub fn message(&self) -> (message: String)
        ensures
            message@ == self.message_view(),
    {
        self.message.clone()
    }

    pub fn is_infeasible(&self) -> (infeasible: bool)
        ensures
            infeasible == (self.kind_view() == ErrorKind::Infeasible),
    {
        self.kind == ErrorKind::Infeasible
    }

    /// Prefixes the message with `context` and a colon; the kind stays.
    pub fn context(self, context: &str) -> (error: Self)
        ensures
            error.kind_view() == self.kind_view(),
            error.message_view() == context@ + ": "@ + self.message_view(),
    {
        let mut message = context.to_owned();
        message.append(": ");
        message.append(self.message.as_str());
        Error { kind: self.kind, message }
    }
}

} // verus!
