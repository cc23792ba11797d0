//! What `jsonc_parser` computes on the editor's settings, over plain values.

use crate::json_value::{json_text, json_view, JsonView, READ_DEPTH};
use crate::text::views;
use crate::zed_settings::document::{with_compact_theme, without_compact_theme};
use crate::zed_settings::nesting::{is_shallow, MAXIMUM_NESTING};
use jsonc_parser::cst::{CstInputValue, CstNode, CstRootNode};
use jsonc_parser::ParseOptions;
use serde_json::Value;
use vstd::prelude::*;
use vstd::utf8::{decode_utf8, valid_utf8};

verus! {

/// Which liberties a settings document may take with JSON.
#[derive(Clone, Copy, Debug)]
pub struct Syntax {
    pub allow_comments: bool,
    pub allow_loose_object_property_names: bool,
    pub allow_trailing_commas: bool,
    pub allow_missing_commas: bool,
    pub allow_single_quoted_strings: bool,
    pub allow_hexadecimal_numbers: bool,
    pub allow_unary_plus_numbers: bool,
}

/// A direct child of the settings object: a token, a comment, white space, a line
/// break or a property.
#[derive(Debug)]
pub struct Child {
    pub text: String,
    pub newline: bool,
}

/// The parts of a settings document whose value is an object.
#[derive(Debug)]
pub struct Outline {
    /// The texts of the document's parts.
    pub parts: Vec<String>,
    /// Which part is the object.
    pub object: usize,
    pub children: Vec<Child>,
}

/// A property of the settings object.
#[derive(Debug)]
pub struct Property {
    /// The position among the children of the object.
    pub child: usize,
    /// The decoded name or why it cannot be decoded.
    pub name: Option<core::result::Result<String, String>>,
    /// The value, if it is one.
    pub value: Option<Value>,
    /// The position of the comma behind the property among the children.
    pub comma: Option<usize>,
}

/// What an [`Outline`] says.
pub struct OutlineView {
    pub parts: Seq<Seq<char>>,
    pub object: int,
    pub children: Seq<(Seq<char>, bool)>,
}

/// What a [`Property`] says.
pub struct PropertyView {
    pub child: int,
    pub name: Option<core::result::Result<Seq<char>, Seq<char>>>,
    pub value: Option<JsonView>,
    pub comma: Option<int>,
}

impl View for Outline {
    type V = OutlineView;

    open spec fn view(&self) -> OutlineView {
        OutlineView {
            parts: views(self.parts@),
            object: self.object as int,
            children: self.children@.map_values(|child: Child| (child.text@, child.newline)),
        }
    }
}

impl View for Property {
    type V = PropertyView;

    open spec fn view(&self) -> PropertyView {
        PropertyView {
            child: self.child as int,
            name: match self.name {
                Some(Ok(name)) => Some(Ok(name@)),
                Some(Err(fault)) => Some(Err(fault@)),
                None => None,
            },
            value: match self.value {
                Some(value) => Some(json_view(value)),
                None => None,
            },
            comma: match self.comma {
                Some(comma) => Some(comma as int),
                None => None,
            },
        }
    }
}

/// What the properties say.
pub open spec fn property_views(properties: Seq<Property>) -> Seq<PropertyView> {
    properties.map_values(|property: Property| property@)
}

/// Whether there is a property at `index`.
pub open spec fn has_property(properties: Seq<PropertyView>, index: int) -> bool {
    0 <= index < properties.len()
}

/// The name and the value of a property.
pub type Setting = (Option<core::result::Result<Seq<char>, Seq<char>>>, Option<JsonView>);

/// The names and the values of the properties.
pub open spec fn settings_of(properties: Seq<PropertyView>) -> Seq<Setting> {
    properties.map_values(|property: PropertyView| (property.name, property.value))
}

/// Whether the document can be parsed and its value is an object with exactly these
/// settings.
pub open spec fn has_settings(source: Seq<char>, syntax: Syntax, settings: Seq<Setting>) -> bool {
    &&& is_shallow(source)
    &&& settings_outline(source, syntax) matches Ok(Some(_))
    &&& settings_of(settings_properties(source, syntax)) == settings
}

/// Whether a value nests no deeper than one in a settings object can.
pub open spec fn fits_settings(view: JsonView) -> bool {
    view.nests_within((MAXIMUM_NESTING - 1) as nat)
}

/// Whether no value nests deeper than one in a settings object can.
pub open spec fn all_fit_settings(properties: Seq<PropertyView>) -> bool {
    forall|i: int|
        0 <= i < properties.len() ==> ((#[trigger] properties[i]).value matches Some(value)
            ==> fits_settings(value))
}

impl Syntax {
    /// Commas separate properties, and one may follow the last.
    pub open spec fn is_comma_separated(self) -> bool {
        self.allow_trailing_commas && !self.allow_missing_commas
    }

    /// A document that can be parsed: every string is in double quotes, and brackets do
    /// not nest too deep.
    pub open spec fn takes(self, source: Seq<char>) -> bool {
        !self.allow_single_quoted_strings && is_shallow(source)
    }
}

/// The texts one behind the other.
pub open spec fn concatenated(texts: Seq<Seq<char>>) -> Seq<char>
    decreases texts.len(),
{
    if texts.len() == 0 {
        Seq::empty()
    } else {
        concatenated(texts.drop_last()) + texts.last()
    }
}

/// The texts of the children.
pub open spec fn child_texts(children: Seq<(Seq<char>, bool)>) -> Seq<Seq<char>> {
    children.map_values(|child: (Seq<char>, bool)| child.0)
}

impl OutlineView {
    /// The parts make up `source`, the children make up the object, and the object
    /// is enclosed in braces.
    pub open spec fn is_outline_of(self, source: Seq<char>) -> bool {
        &&& concatenated(self.parts) == source
        &&& 0 <= self.object < self.parts.len()
        &&& concatenated(child_texts(self.children)) == self.parts[self.object]
        &&& self.children.len() >= 2
        &&& self.children[0].0 == "{"@
        &&& self.children.last().0 == "}"@
    }

    /// The properties stand in order among the children, each with the comma that
    /// follows it.
    pub open spec fn places(self, properties: Seq<PropertyView>) -> bool {
        &&& forall|i: int|
            0 <= i < properties.len() ==> {
                let property = #[trigger] properties[i];
                &&& 0 < property.child < self.children.len() - 1
                &&& property.comma matches Some(comma) ==> property.child < comma
                    < self.children.len() - 1 && self.children[comma].0 == ","@
            }
        &&& forall|i: int, j: int|
            0 <= i < j < properties.len() ==> (#[trigger] properties[i]).child < (
            #[trigger] properties[j]).child
    }
}

/// What parsing a document gives: why the text is none, or the outline of its
/// object if its value is an object.
pub uninterp spec fn settings_outline(source: Seq<char>, syntax: Syntax) -> core::result::Result<
    Option<OutlineView>,
    Seq<char>,
>;

/// `CstRootNode::parse` of `jsonc_parser`, read out through `object_value`,
/// `children`, `child_index` and `is_newline`. The tree keeps every character: its
/// parts, written one behind the other, are the source, and so it is with an
/// object and its children, which start with its opening and end with its closing
/// brace. The parser goes down once for each level of brackets, without a limit of its
/// own.
#[verifier::external_body]
pub(crate) fn outline(source: &str, syntax: Syntax) -> (result: core::result::Result<
    Option<Outline>,
    String,
>)
    requires
        syntax.takes(source@),
    ensures
        match result {
            Ok(Some(outline)) => settings_outline(source@, syntax) == Ok::<_, Seq<char>>(
                Some(outline@),
            ) && outline@.is_outline_of(source@),
            Ok(None) => settings_outline(source@, syntax) == Ok::<_, Seq<char>>(
                None::<OutlineView>,
            ),
            Err(fault) => settings_outline(source@, syntax) == Err::<Option<OutlineView>, _>(
                fault@,
            ),
        },
{
    let Syntax { allow_comments, allow_loose_object_property_names, allow_trailing_commas,
        allow_missing_commas, allow_single_quoted_strings, allow_hexadecimal_numbers,
        allow_unary_plus_numbers } = syntax;
    let options = ParseOptions { allow_comments, allow_loose_object_property_names,
        allow_trailing_commas, allow_missing_commas, allow_single_quoted_strings,
        allow_hexadecimal_numbers, allow_unary_plus_numbers };
    let root = CstRootNode::parse(source, &options).map_err(|fault| fault.to_string())?;
    let Some(object) = root.object_value() else { return Ok(None) };
    let parts = root.children().iter().map(|node| node.to_string()).collect();
    let nodes = object.children();
    let child = |node: &CstNode| Child { text: node.to_string(), newline: node.is_newline() };
    Ok(Some(Outline { parts, object: object.child_index(), children: nodes.iter().map(child).collect() }))
}

/// Whether a JSON value is such.
pub open spec fn is_json(view: JsonView) -> bool {
    exists|value: Value| json_view(value) == view
}

/// Whether a one-line object can be given a theme setting behind the others, and its
/// last setting can be cut out.
pub open spec fn takes_settings(
    source: Seq<char>,
    syntax: Syntax,
    outline: OutlineView,
    properties: Seq<PropertyView>,
) -> bool {
    &&& forall|theme: JsonView| #[trigger]
        is_json(theme) && theme.is_exact() && fits_settings(theme) ==> has_settings(
            with_compact_theme(source, outline, properties, json_text(theme)),
            syntax,
            settings_of(properties).push((Some(Ok("theme"@)), Some(theme))),
        )
    &&& properties.len() > 0 ==> has_settings(
        without_compact_theme(source, outline, properties.last()),
        syntax,
        settings_of(properties).drop_last(),
    )
}

/// The properties of the object that a document holds.
pub uninterp spec fn settings_properties(source: Seq<char>, syntax: Syntax) -> Seq<PropertyView>;

/// `CstObject::properties` of `jsonc_parser`, read out through `child_index`,
/// `name`, `decoded_value`, `value`, `to_serde_value` and `trailing_comma`. A
/// document that holds no object has none. Properties come in order between the
/// braces of the object, and the comma of a property comes behind it. An object on
/// one line holds no line comment: a setting that is written before its closing brace,
/// separated from the others, is read as one more property, and what is left when the
/// last setting is cut out reads as the others. A value nests less deep than the brackets
/// of the document.
#[verifier::external_body]
pub(crate) fn properties(source: &str, syntax: Syntax) -> (found: Vec<Property>)
    requires
        syntax.takes(source@),
    ensures
        property_views(found@) == settings_properties(source@, syntax),
        all_fit_settings(property_views(found@)),
        settings_outline(source@, syntax) matches Ok(Some(outline)) ==> outline.places(
            property_views(found@),
        ),
        (settings_outline(source@, syntax) matches Ok(Some(outline)) && !outline.is_multiline()
            && syntax.is_comma_separated()) ==> takes_settings(
            source@,
            syntax,
            settings_outline(source@, syntax)->Ok_0->0,
            property_views(found@),
        ),
{
    let Syntax { allow_comments, allow_loose_object_property_names, allow_trailing_commas,
        allow_missing_commas, allow_single_quoted_strings, allow_hexadecimal_numbers,
        allow_unary_plus_numbers } = syntax;
    let options = ParseOptions { allow_comments, allow_loose_object_property_names,
        allow_trailing_commas, allow_missing_commas, allow_single_quoted_strings,
        allow_hexadecimal_numbers, allow_unary_plus_numbers };
    let root = CstRootNode::parse(source, &options).ok();
    let Some(object) = root.and_then(|root| root.object_value()) else { return vec![] };
    object.properties().iter().map(|property| Property {
        child: property.child_index(),
        name: property.name().map(|name| name.decoded_value().map_err(|fault| fault.to_string())),
        value: property.value().and_then(|node| node.to_serde_value()),
        comma: property.trailing_comma().map(|comma| comma.child_index()),
    }).collect()
}

/// The value that `jsonc_parser` inserts into a document.
#[verifier::external_type_specification]
#[verifier::external_body]
pub struct ExCstInputValue(CstInputValue);

/// What a value to insert is.
pub uninterp spec fn input_view(input: CstInputValue) -> JsonView;

/// What several values to insert are.
pub open spec fn input_views(inputs: Seq<CstInputValue>) -> Seq<JsonView> {
    inputs.map_values(|input: CstInputValue| input_view(input))
}

/// What several named values to insert are.
pub open spec fn field_views(fields: Seq<(String, CstInputValue)>) -> Seq<(Seq<char>, JsonView)> {
    fields.map_values(|field: (String, CstInputValue)| (field.0@, input_view(field.1)))
}

/// A value to insert, one level deep.
pub enum Input {
    Null,
    Bool(bool),
    Number(String),
    Text(String),
    List(Vec<CstInputValue>),
    Object(Vec<(String, CstInputValue)>),
}

impl View for Input {
    type V = JsonView;

    open spec fn view(&self) -> JsonView {
        match *self {
            Input::Null => JsonView::Null,
            Input::Bool(value) => JsonView::Bool(value),
            Input::Number(digits) => JsonView::Number(digits@),
            Input::Text(text) => JsonView::Text(text@),
            Input::List(inputs) => JsonView::List(input_views(inputs@)),
            Input::Object(fields) => JsonView::Object(field_views(fields@)),
        }
    }
}

/// The variants of `CstInputValue` of `jsonc_parser`: the value holds what it was
/// made of.
#[verifier::external_body]
pub(crate) fn make_input(input: Input) -> (value: CstInputValue)
    ensures
        input_view(value) == input@,
{
    match input {
        Input::Null => CstInputValue::Null,
        Input::Bool(value) => CstInputValue::Bool(value),
        Input::Number(digits) => CstInputValue::Number(digits),
        Input::Text(text) => CstInputValue::String(text),
        Input::List(inputs) => CstInputValue::Array(inputs),
        Input::Object(fields) => CstInputValue::Object(fields),
    }
}

/// Whether a value is read again as it was. A backslash is written without being
/// escaped, and the last digit of a fraction can change.
pub open spec fn is_kept(view: JsonView) -> bool {
    is_json(view) && view.is_exact() && view.has_no_backslash()
}

/// The document with another value for the property at `property`.
pub uninterp spec fn with_value(
    source: Seq<char>,
    syntax: Syntax,
    property: int,
    value: JsonView,
) -> Seq<char>;

/// `CstObjectProp::set_value` of `jsonc_parser` on the property at `property`; no
/// document comes out where there is no such property. The other properties stay, and
/// this one is read as the value that was set, where it is read as it was written. The
/// value is written going down once for each level, without a limit of its own.
#[verifier::external_body]
pub(crate) fn set_value(source: &str, syntax: Syntax, property: usize, value: CstInputValue) -> (
result: Option<String>)
    requires
        syntax.takes(source@),
        input_view(value).nests_within(READ_DEPTH as nat),
    ensures
        result is Some <==> (settings_outline(source@, syntax) is Ok && has_property(
            settings_properties(source@, syntax),
            property as int,
        )),
        result matches Some(text) ==> text@ == with_value(
            source@,
            syntax,
            property as int,
            input_view(value),
        ),
        result matches Some(text) ==> (is_kept(input_view(value)) && syntax.is_comma_separated()
            ==> has_settings(
            text@,
            syntax,
            settings_of(settings_properties(source@, syntax)).update(
                property as int,
                (
                    settings_properties(source@, syntax)[property as int].name,
                    Some(input_view(value)),
                ),
            ),
        )),
{
    let Syntax { allow_comments, allow_loose_object_property_names, allow_trailing_commas,
        allow_missing_commas, allow_single_quoted_strings, allow_hexadecimal_numbers,
        allow_unary_plus_numbers } = syntax;
    let options = ParseOptions { allow_comments, allow_loose_object_property_names,
        allow_trailing_commas, allow_missing_commas, allow_single_quoted_strings,
        allow_hexadecimal_numbers, allow_unary_plus_numbers };
    let root = CstRootNode::parse(source, &options).ok()?;
    let properties = root.object_value()?.properties();
    properties.get(property)?.set_value(value);
    Some(root.to_string())
}

/// The document without the property at `property`.
pub uninterp spec fn without_property(source: Seq<char>, syntax: Syntax, property: int) -> Seq<char>;

/// `CstObjectProp::remove` of `jsonc_parser` on the property at `property`; no
/// document comes out where there is no such property. The other properties stay.
#[verifier::external_body]
pub(crate) fn remove_property(source: &str, syntax: Syntax, property: usize) -> (result: Option<
    String,
>)
    requires
        syntax.takes(source@),
    ensures
        result is Some <==> (settings_outline(source@, syntax) is Ok && has_property(
            settings_properties(source@, syntax),
            property as int,
        )),
        result matches Some(text) ==> text@ == without_property(source@, syntax, property as int),
        result matches Some(text) ==> (syntax.is_comma_separated() ==> has_settings(
            text@,
            syntax,
            settings_of(settings_properties(source@, syntax)).remove(property as int),
        )),
{
    let Syntax { allow_comments, allow_loose_object_property_names, allow_trailing_commas,
        allow_missing_commas, allow_single_quoted_strings, allow_hexadecimal_numbers,
        allow_unary_plus_numbers } = syntax;
    let options = ParseOptions { allow_comments, allow_loose_object_property_names,
        allow_trailing_commas, allow_missing_commas, allow_single_quoted_strings,
        allow_hexadecimal_numbers, allow_unary_plus_numbers };
    let root = CstRootNode::parse(source, &options).ok()?;
    let properties = root.object_value()?.properties();
    properties.get(property)?.clone().remove();
    Some(root.to_string())
}

/// The document with one more property behind the others.
pub uninterp spec fn with_property(
    source: Seq<char>,
    syntax: Syntax,
    name: Seq<char>,
    value: JsonView,
) -> Seq<char>;

/// `CstObject::append` of `jsonc_parser`; no document comes out where there is no
/// object. The other properties stay, and the new one comes behind them and is read as
/// the value that was set, where it is read as it was written. The value is written going
/// down once for each level, without a limit of its own.
#[verifier::external_body]
pub(crate) fn append_property(source: &str, syntax: Syntax, name: &str, value: CstInputValue) -> (
result: Option<String>)
    requires
        syntax.takes(source@),
        input_view(value).nests_within(READ_DEPTH as nat),
    ensures
        result is Some <==> (settings_outline(source@, syntax) matches Ok(Some(_))),
        result matches Some(text) ==> text@ == with_property(
            source@,
            syntax,
            name@,
            input_view(value),
        ),
        result matches Some(text) ==> (is_kept(input_view(value)) && !name@.contains('\\')
            && syntax.is_comma_separated() ==> has_settings(
            text@,
            syntax,
            settings_of(settings_properties(source@, syntax)).push(
                (Some(Ok(name@)), Some(input_view(value))),
            ),
        )),
{
    let Syntax { allow_comments, allow_loose_object_property_names, allow_trailing_commas,
        allow_missing_commas, allow_single_quoted_strings, allow_hexadecimal_numbers,
        allow_unary_plus_numbers } = syntax;
    let options = ParseOptions { allow_comments, allow_loose_object_property_names,
        allow_trailing_commas, allow_missing_commas, allow_single_quoted_strings,
        allow_hexadecimal_numbers, allow_unary_plus_numbers };
    let root = CstRootNode::parse(source, &options).ok()?;
    root.object_value()?.append(name, value);
    Some(root.to_string())
}

/// `std::str::from_utf8`: the text that valid UTF-8 bytes encode.
#[verifier::external_body]
pub(crate) fn decode(content: &[u8]) -> (text: Option<String>)
    ensures
        text is Some <==> valid_utf8(content@),
        text matches Some(text) ==> text@ == decode_utf8(content@),
{
    std::str::from_utf8(content).ok().map(|text| text.to_owned())
}

} // verus!
