//! JSON values as `serde_json` holds them, and what it computes on them.

use crate::text::{decimal_of, text_before};
use serde_json::Value;
use vstd::prelude::*;
use vstd::utf8::encode_utf8;

verus! {

/// What a JSON value is. The fields of an object come in the order of their names; a
/// number is what it is written as.
pub enum JsonView {
    Null,
    Bool(bool),
    Number(Seq<char>),
    Text(Seq<char>),
    List(Seq<JsonView>),
    Object(Seq<(Seq<char>, JsonView)>),
}

/// Whether a number is a whole number.
pub open spec fn is_whole(digits: Seq<char>) -> bool {
    forall|i: int|
        0 <= i < digits.len() ==> '0' <= (#[trigger] digits[i]) <= '9' || i == 0 && digits[i] == '-'
}

/// Whether a number is read as it is written. The last digit of a fraction can change.
pub open spec fn reads_as_written(digits: Seq<char>) -> bool {
    is_whole(digits) || json_of(digits) == Some(JsonView::Number(digits))
}

impl JsonView {
    /// Whether every number of the value is read as it is written.
    pub open spec fn is_exact(self) -> bool
        decreases self,
    {
        match self {
            JsonView::Number(digits) => reads_as_written(digits),
            JsonView::List(elements) => forall|i: int|
                0 <= i < elements.len() ==> (#[trigger] elements[i]).is_exact(),
            JsonView::Object(fields) => forall|i: int|
                0 <= i < fields.len() ==> (#[trigger] fields[i]).1.is_exact(),
            _ => true,
        }
    }

    /// Whether no text of the value holds a backslash.
    pub open spec fn has_no_backslash(self) -> bool
        decreases self,
    {
        match self {
            JsonView::Text(text) => !text.contains('\\'),
            JsonView::List(elements) => forall|i: int|
                0 <= i < elements.len() ==> (#[trigger] elements[i]).has_no_backslash(),
            JsonView::Object(fields) => forall|i: int|
                0 <= i < fields.len() ==> !(#[trigger] fields[i]).0.contains('\\')
                    && fields[i].1.has_no_backslash(),
            _ => true,
        }
    }

    /// Whether lists and objects nest at most `levels` deep.
    pub open spec fn nests_within(self, levels: nat) -> bool
        decreases self,
    {
        match self {
            JsonView::List(elements) => levels > 0 && forall|i: int|
                0 <= i < elements.len() ==> (#[trigger] elements[i]).nests_within(
                    (levels - 1) as nat,
                ),
            JsonView::Object(fields) => levels > 0 && forall|i: int|
                0 <= i < fields.len() ==> (#[trigger] fields[i]).1.nests_within(
                    (levels - 1) as nat,
                ),
            _ => true,
        }
    }
}

/// A value that nests within some levels nests within more.
pub proof fn lemma_nests_within_more(view: JsonView, levels: nat, more: nat)
    requires
        view.nests_within(levels),
        levels <= more,
    ensures
        view.nests_within(more),
    decreases view,
{
    match view {
        JsonView::List(elements) => {
            assert forall|i: int| 0 <= i < elements.len() implies (
            #[trigger] elements[i]).nests_within((more - 1) as nat) by {
                lemma_nests_within_more(elements[i], (levels - 1) as nat, (more - 1) as nat);
            }
        },
        JsonView::Object(fields) => {
            assert forall|i: int| 0 <= i < fields.len() implies (
            #[trigger] fields[i]).1.nests_within((more - 1) as nat) by {
                lemma_nests_within_more(fields[i].1, (levels - 1) as nat, (more - 1) as nat);
            }
        },
        _ => {},
    }
}

/// How deep `serde_json` reads.
pub const READ_DEPTH: usize = 127;

/// How deep a value may nest that is copied or written.
pub const WRITE_DEPTH: usize = 256;

/// A JSON value of `serde_json`.
#[verifier::external_type_specification]
#[verifier::external_body]
pub struct ExValue(Value);

/// What a value of `serde_json` is.
pub uninterp spec fn json_view(value: Value) -> JsonView;

/// What several values are.
pub open spec fn json_views(values: Seq<Value>) -> Seq<JsonView> {
    values.map_values(|value: Value| json_view(value))
}

/// What several named values are.
pub open spec fn member_views(members: Seq<(String, Value)>) -> Seq<(Seq<char>, JsonView)> {
    members.map_values(|member: (String, Value)| (member.0@, json_view(member.1)))
}

/// Whether the names ascend.
pub open spec fn names_ascend(members: Seq<(Seq<char>, JsonView)>) -> bool {
    forall|i: int, j: int|
        0 <= i < j < members.len() ==> text_before(
            (#[trigger] members[i]).0,
            (#[trigger] members[j]).0,
        )
}

/// A JSON value, one level deep.
pub enum Level {
    Null,
    Bool(bool),
    Number(String),
    Text(String),
    List(Vec<Value>),
    Object(Vec<(String, Value)>),
}

impl View for Level {
    type V = JsonView;

    open spec fn view(&self) -> JsonView {
        match *self {
            Level::Null => JsonView::Null,
            Level::Bool(value) => JsonView::Bool(value),
            Level::Number(digits) => JsonView::Number(digits@),
            Level::Text(text) => JsonView::Text(text@),
            Level::List(values) => JsonView::List(json_views(values@)),
            Level::Object(members) => JsonView::Object(member_views(members@)),
        }
    }
}

/// The variants of `Value` of `serde_json`, taken apart; a number is written with
/// `to_string`, and a map is walked in the order of its names.
#[verifier::external_body]
pub(crate) fn take_apart(value: Value) -> (level: Level)
    ensures
        level@ == json_view(value),
        level matches Level::Object(members) ==> names_ascend(member_views(members@)),
{
    match value {
        Value::Null => Level::Null,
        Value::Bool(value) => Level::Bool(value),
        Value::Number(number) => Level::Number(number.to_string()),
        Value::String(text) => Level::Text(text),
        Value::Array(values) => Level::List(values),
        Value::Object(members) => Level::Object(members.into_iter().collect()),
    }
}

/// What a value is made of.
pub enum Part {
    Null,
    Bool(bool),
    Count(u64),
    Text(String),
    List(Vec<Value>),
    Object(Vec<(String, Value)>),
}

impl View for Part {
    type V = JsonView;

    open spec fn view(&self) -> JsonView {
        match *self {
            Part::Null => JsonView::Null,
            Part::Bool(value) => JsonView::Bool(value),
            Part::Count(count) => JsonView::Number(decimal_of(count as nat)),
            Part::Text(text) => JsonView::Text(text@),
            Part::List(values) => JsonView::List(json_views(values@)),
            Part::Object(members) => JsonView::Object(member_views(members@)),
        }
    }
}

/// The variants of `Value` of `serde_json`: the value is what it was made of. A map
/// keeps fields whose names ascend in their order.
#[verifier::external_body]
pub(crate) fn make_value(part: Part) -> (value: Value)
    requires
        part matches Part::Object(members) ==> names_ascend(member_views(members@)),
    ensures
        json_view(value) == part@,
{
    match part {
        Part::Null => Value::Null,
        Part::Bool(value) => Value::Bool(value),
        Part::Count(count) => Value::from(count),
        Part::Text(text) => Value::String(text),
        Part::List(values) => Value::Array(values),
        Part::Object(members) => Value::Object(members.into_iter().collect()),
    }
}

/// `Clone` of `Value` of `serde_json`: the copy is the same value. Copying goes down
/// once for each level, without a limit of its own.
#[verifier::external_body]
pub(crate) fn copy_value(value: &Value) -> (copy: Value)
    requires
        json_view(*value).nests_within(WRITE_DEPTH as nat),
    ensures
        json_view(copy) == json_view(*value),
{
    value.clone()
}

/// A value as it is written without white space.
pub uninterp spec fn json_text(value: JsonView) -> Seq<char>;

/// `to_string` of `Value` of `serde_json`. Writing goes down once for each level, without
/// a limit of its own.
#[verifier::external_body]
pub(crate) fn compact_text(value: &Value) -> (text: String)
    requires
        json_view(*value).nests_within(WRITE_DEPTH as nat),
    ensures
        text@ == json_text(json_view(*value)),
{
    value.to_string()
}

/// The value that a text denotes, if it denotes one.
pub uninterp spec fn json_of(text: Seq<char>) -> Option<JsonView>;

/// `serde_json::from_str` to a `Value`: a text that nests too deep denotes none.
#[verifier::external_body]
pub(crate) fn read_text(text: &str) -> (value: Option<Value>)
    ensures
        value is Some <==> json_of(text@) is Some,
        value matches Some(value) ==> json_of(text@) == Some(json_view(value)),
        value matches Some(value) ==> json_view(value).nests_within(READ_DEPTH as nat),
{
    serde_json::from_str::<Value>(text).ok()
}

/// The value that bytes denote, or why they denote none.
pub uninterp spec fn json_read(content: Seq<u8>) -> core::result::Result<JsonView, Seq<char>>;

/// `serde_json::from_slice` to a `Value`: bytes that nest too deep denote none.
#[verifier::external_body]
pub(crate) fn read_bytes(content: &[u8]) -> (result: core::result::Result<Value, String>)
    ensures
        match result {
            Ok(value) => json_read(content@) == Ok::<_, Seq<char>>(json_view(value)) && json_view(
                value,
            ).nests_within(READ_DEPTH as nat),
            Err(fault) => json_read(content@) == Err::<JsonView, _>(fault@),
        },
{
    serde_json::from_slice::<Value>(content).map_err(|fault| fault.to_string())
}

/// A value as it is written with line breaks and indents.
pub uninterp spec fn pretty_json(value: JsonView) -> Seq<char>;

/// `serde_json::to_string_pretty` of a `Value`, which always can be written. The text
/// and a line break are read as the same value, where its numbers are read as they are
/// written and it nests no deeper than is read. Writing goes down once for each level.
#[verifier::external_body]
pub(crate) fn pretty_text(value: &Value) -> (result: Option<String>)
    requires
        json_view(*value).nests_within(WRITE_DEPTH as nat),
    ensures
        result is Some,
        result matches Some(text) ==> text@ == pretty_json(json_view(*value)),
        result matches Some(text) ==> (json_view(*value).is_exact() && json_view(
            *value,
        ).nests_within(READ_DEPTH as nat) ==> json_read(encode_utf8(text@.push('\n')))
            == Ok::<_, Seq<char>>(json_view(*value))),
{
    serde_json::to_string_pretty(value).ok()
}

/// The bytes of a text and a line break.
pub(crate) fn line_bytes(text: String) -> (content: Vec<u8>)
    ensures
        content@ == encode_utf8(text@.push('\n')),
{
    let mut text = text;
    text.push('\n');
    text.as_str().as_bytes_vec()
}

} // verus!
