//! Reads and edits the theme setting in the text of the editor's settings.

use crate::json_value::{
    compact_text, copy_value, json_of, json_text, json_view, json_views, lemma_nests_within_more,
    make_value, member_views, read_text, take_apart, JsonView, Level, Part, READ_DEPTH, WRITE_DEPTH,
};
use crate::text::{characters, same_text, text_between, views};
use crate::zed_settings::nesting::{is_shallow, nests_shallow, MAXIMUM_NESTING};
use crate::zed_settings::outside::{
    append_property, child_texts, concatenated, field_views, fits_settings, has_settings,
    input_view, input_views, is_json, make_input, outline, properties, property_views,
    remove_property, set_value, settings_of, settings_outline, settings_properties, with_property,
    with_value, without_property, Child, Input, Outline, OutlineView, Property, PropertyView,
    Setting, Syntax,
};
use crate::{Error, Result};
use jsonc_parser::cst::CstInputValue;
use serde_json::Value;
use vstd::prelude::*;

verus! {

/// Settings are JSON with comments and trailing commas.
pub open spec fn settings_syntax() -> Syntax {
    Syntax {
        allow_comments: true,
        allow_loose_object_property_names: false,
        allow_trailing_commas: true,
        allow_missing_commas: false,
        allow_single_quoted_strings: false,
        allow_hexadecimal_numbers: false,
        allow_unary_plus_numbers: false,
    }
}

fn syntax() -> (syntax: Syntax)
    ensures
        syntax == settings_syntax(),
{
    Syntax {
        allow_comments: true,
        allow_loose_object_property_names: false,
        allow_trailing_commas: true,
        allow_missing_commas: false,
        allow_single_quoted_strings: false,
        allow_hexadecimal_numbers: false,
        allow_unary_plus_numbers: false,
    }
}

/// The value of a theme setting.
#[derive(Debug)]
pub struct ThemeValue {
    value: Value,
}

impl View for ThemeValue {
    type V = JsonView;

    closed spec fn view(&self) -> JsonView {
        json_view(self.value)
    }
}

impl Clone for ThemeValue {
    fn clone(&self) -> (value: Self)
        ensures
            value@ == self@,
    {
        proof {
            use_type_invariant(self);
            lemma_nests_within_more(self@, (MAXIMUM_NESTING - 1) as nat, WRITE_DEPTH as nat);
        }
        ThemeValue { value: copy_value(&self.value) }
    }
}

/// The value of a theme setting, if there is one.
pub open spec fn theme_view(theme: Option<ThemeValue>) -> Option<JsonView> {
    match theme {
        Some(value) => Some(value@),
        None => None,
    }
}

/// The setting that selects the managed theme.
pub open spec fn managed_theme() -> JsonView {
    JsonView::Text("Omarchy"@)
}

impl ThemeValue {
    /// The value can stand in a settings object.
    #[verifier::type_invariant]
    spec fn fits(self) -> bool {
        fits_settings(json_view(self.value))
    }

    /// Reads a JSON value.
    pub fn parse(text: &str) -> (value: Option<Self>)
        ensures
            value is Some <==> json_of(text@) is Some,
            value matches Some(value) ==> json_of(text@) == Some(value@),
            value matches Some(value) ==> value@.nests_within(READ_DEPTH as nat),
    {
        match read_text(text) {
            Some(value) => {
                proof {
                    lemma_nests_within_more(
                        json_view(value),
                        READ_DEPTH as nat,
                        (MAXIMUM_NESTING - 1) as nat,
                    );
                }
                Some(ThemeValue { value })
            },
            None => None,
        }
    }

    /// The setting that selects the managed theme.
    pub fn managed() -> (value: Self)
        ensures
            value@ == managed_theme(),
    {
        ThemeValue { value: make_value(Part::Text("Omarchy".to_owned())) }
    }

    pub fn is_managed(&self) -> (managed: bool)
        ensures
            managed == (self@ == managed_theme()),
    {
        match take_apart(self.value_copy()) {
            Level::Text(text) => same_text(text.as_str(), "Omarchy"),
            _ => false,
        }
    }

    /// Whether the value nests no deeper than one that was read from a saved state.
    pub fn can_be_set(&self) -> (shallow: bool)
        ensures
            shallow == self@.nests_within(READ_DEPTH as nat),
    {
        input_value(self.value_copy(), READ_DEPTH).is_some()
    }

    /// The value as compact JSON.
    pub fn to_text(&self) -> (text: String)
        ensures
            text@ == json_text(self@),
    {
        proof {
            use_type_invariant(self);
            lemma_nests_within_more(self@, (MAXIMUM_NESTING - 1) as nat, WRITE_DEPTH as nat);
        }
        compact_text(&self.value)
    }

    pub(crate) fn of(value: Value) -> (theme: Self)
        requires
            fits_settings(json_view(value)),
        ensures
            theme@ == json_view(value),
    {
        ThemeValue { value }
    }

    pub(crate) fn value_copy(&self) -> (value: Value)
        ensures
            json_view(value) == self@,
            is_json(self@),
            fits_settings(self@),
    {
        proof {
            use_type_invariant(self);
            lemma_nests_within_more(self@, (MAXIMUM_NESTING - 1) as nat, WRITE_DEPTH as nat);
        }
        copy_value(&self.value)
    }
}

/// The outline of the settings object, or why there is none.
pub open spec fn settings_object(source: Seq<char>) -> core::result::Result<
    OutlineView,
    Seq<char>,
> {
    if !is_shallow(source) {
        Err("Zed settings are nested too deep"@)
    } else {
        match settings_outline(source, settings_syntax()) {
            Ok(Some(outline)) => Ok(outline),
            Ok(None) => Err("Zed settings must contain a JSON object"@),
            Err(fault) => Err("invalid Zed settings: "@ + fault),
        }
    }
}

fn parse_settings(source: &str) -> (result: Result<Outline>)
    ensures
        result is Ok <==> settings_object(source@) is Ok,
        result matches Ok(outline) ==> settings_object(source@) == Ok::<_, Seq<char>>(outline@)
            && outline@.is_outline_of(source@),
        result matches Err(error) ==> error.is_invalid(settings_object(source@)->Err_0),
{
    if !nests_shallow(source) {
        return Err(Error::invalid("Zed settings are nested too deep".to_owned()));
    }
    match outline(source, syntax()) {
        Ok(Some(outline)) => Ok(outline),
        Ok(None) => Err(Error::invalid("Zed settings must contain a JSON object".to_owned())),
        Err(fault) => {
            let mut message = "invalid Zed settings: ".to_owned();
            message.append(fault.as_str());
            Err(Error::invalid(message))
        },
    }
}

/// Where the theme setting is among the properties from `from` on, given where it
/// was found before.
pub open spec fn theme_among(
    properties: Seq<PropertyView>,
    from: int,
    found: Option<int>,
) -> core::result::Result<Option<int>, Seq<char>>
    decreases properties.len() - from,
{
    if from < 0 || from >= properties.len() {
        Ok(found)
    } else {
        match properties[from].name {
            None => Err("Zed settings contain an unnamed property"@),
            Some(Err(fault)) => Err("invalid Zed setting name: "@ + fault),
            Some(Ok(name)) => if name != "theme"@ {
                theme_among(properties, from + 1, found)
            } else if found is Some {
                Err("Zed settings contain duplicate theme keys"@)
            } else {
                theme_among(properties, from + 1, Some(from))
            },
        }
    }
}

/// Finds the theme setting.
fn theme_property(properties: &Vec<Property>) -> (result: Result<Option<usize>>)
    ensures
        match result {
            Ok(Some(index)) => theme_among(property_views(properties@), 0, None) == Ok::<_, Seq<char>>(
                Some(index as int),
            ) && index < properties@.len(),
            Ok(None) => theme_among(property_views(properties@), 0, None) == Ok::<_, Seq<char>>(
                None::<int>,
            ),
            Err(error) => theme_among(property_views(properties@), 0, None) is Err
                && error.is_invalid(theme_among(property_views(properties@), 0, None)->Err_0),
        },
{
    let ghost all = property_views(properties@);
    let mut found: Option<usize> = None;
    let ghost mut found_view: Option<int> = None;
    let mut index: usize = 0;
    while index < properties.len()
        invariant
            all == property_views(properties@),
            index <= properties@.len(),
            found matches Some(at) ==> at < index && found_view == Some(at as int),
            found is None ==> found_view is None,
            theme_among(all, 0, None) == theme_among(all, index as int, found_view),
        decreases properties@.len() - index,
    {
        assert(all[index as int] == properties@[index as int]@);
        match &properties[index].name {
            None => {
                return Err(Error::invalid("Zed settings contain an unnamed property".to_owned()));
            },
            Some(Err(fault)) => {
                let mut message = "invalid Zed setting name: ".to_owned();
                message.append(fault.as_str());
                return Err(Error::invalid(message));
            },
            Some(Ok(name)) => {
                if same_text(name.as_str(), "theme") {
                    if found.is_some() {
                        return Err(
                            Error::invalid("Zed settings contain duplicate theme keys".to_owned()),
                        );
                    }
                    found = Some(index);
                    proof {
                        found_view = Some(index as int);
                    }
                }
            },
        }
        index += 1;
    }
    Ok(found)
}

/// The theme setting of a document: its value, nothing if it is not set, or why it
/// cannot be told.
pub open spec fn theme_of(source: Seq<char>) -> core::result::Result<Option<JsonView>, Seq<char>> {
    let properties = settings_properties(source, settings_syntax());
    match settings_object(source) {
        Err(fault) => Err(fault),
        Ok(_) => match theme_among(properties, 0, None) {
            Err(fault) => Err(fault),
            Ok(None) => Ok(None),
            Ok(Some(index)) => match properties[index].value {
                Some(value) => Ok(Some(value)),
                None => Err("Zed theme setting has no valid value"@),
            },
        },
    }
}

/// Whether the setting is the theme setting.
pub open spec fn is_theme(setting: Setting) -> bool {
    setting.0 == Some(Ok::<_, Seq<char>>("theme"@))
}

/// The settings other than the theme.
pub open spec fn without_themes(settings: Seq<Setting>) -> Seq<Setting>
    decreases settings.len(),
{
    if settings.len() == 0 {
        Seq::empty()
    } else if is_theme(settings.last()) {
        without_themes(settings.drop_last())
    } else {
        without_themes(settings.drop_last()).push(settings.last())
    }
}

/// The names and values of the settings other than the theme.
pub open spec fn other_settings(source: Seq<char>) -> Seq<Setting> {
    without_themes(settings_of(settings_properties(source, settings_syntax())))
}

/// Whether every setting has a name and the theme is at `found`, and nowhere else.
spec fn is_only_theme(settings: Seq<Setting>, from: int, found: Option<int>) -> bool {
    forall|i: int|
        from <= i < settings.len() ==> {
            &&& (#[trigger] settings[i]).0 matches Some(Ok(_))
            &&& is_theme(settings[i]) <==> found == Some(i)
        }
}

proof fn lemma_theme_is_unique(
    properties: Seq<PropertyView>,
    from: int,
    before: Option<int>,
    found: Option<int>,
)
    requires
        0 <= from <= properties.len(),
        theme_among(properties, from, before) == Ok::<_, Seq<char>>(found),
        before matches Some(at) ==> at < from,
    ensures
        is_only_theme(settings_of(properties), from, found),
        before is Some ==> found == before,
        before is None ==> (found matches Some(at) ==> from <= at < properties.len()),
    decreases properties.len() - from,
{
    if from < properties.len() {
        let settings = settings_of(properties);
        assert(settings[from] == (properties[from].name, properties[from].value));
        if is_theme(settings[from]) {
            lemma_theme_is_unique(properties, from + 1, Some(from), found);
        } else {
            lemma_theme_is_unique(properties, from + 1, before, found);
        }
    }
}

proof fn lemma_theme_is_found(properties: Seq<PropertyView>, from: int, found: Option<int>)
    requires
        0 <= from <= properties.len(),
        is_only_theme(settings_of(properties), from, found),
        found matches Some(at) ==> 0 <= at < properties.len(),
    ensures
        theme_among(
            properties,
            from,
            if found is Some && found->0 < from {
                found
            } else {
                None
            },
        ) == Ok::<_, Seq<char>>(found),
    decreases properties.len() - from,
{
    if from < properties.len() {
        let settings = settings_of(properties);
        assert(settings[from] == (properties[from].name, properties[from].value));
        lemma_theme_is_found(properties, from + 1, found);
    }
}

/// A document with exactly these settings has this theme.
proof fn lemma_theme_of_settings(source: Seq<char>, settings: Seq<Setting>, found: Option<int>)
    requires
        has_settings(source, settings_syntax(), settings),
        is_only_theme(settings, 0, found),
        found matches Some(at) ==> 0 <= at < settings.len() && settings[at].1 is Some,
    ensures
        theme_of(source) == Ok::<_, Seq<char>>(
            match found {
                Some(at) => settings[at].1,
                None => None,
            },
        ),
{
    let properties = settings_properties(source, settings_syntax());
    assert(settings_of(properties).len() == properties.len());
    lemma_theme_is_found(properties, 0, found);
    if let Some(at) = found {
        assert(settings[at] == (properties[at].name, properties[at].value));
    }
}

proof fn lemma_others_after_update(settings: Seq<Setting>, at: int, setting: Setting)
    requires
        0 <= at < settings.len(),
        is_theme(settings[at]),
        is_theme(setting),
    ensures
        without_themes(settings.update(at, setting)) == without_themes(settings),
    decreases settings.len(),
{
    let updated = settings.update(at, setting);
    if at == settings.len() - 1 {
        assert(updated.drop_last() =~= settings.drop_last());
    } else {
        lemma_others_after_update(settings.drop_last(), at, setting);
        assert(updated.drop_last() =~= settings.drop_last().update(at, setting));
    }
}

proof fn lemma_others_after_removal(settings: Seq<Setting>, at: int)
    requires
        0 <= at < settings.len(),
        is_theme(settings[at]),
    ensures
        without_themes(settings.remove(at)) == without_themes(settings),
    decreases settings.len(),
{
    let removed = settings.remove(at);
    if at == settings.len() - 1 {
        assert(removed =~= settings.drop_last());
    } else {
        lemma_others_after_removal(settings.drop_last(), at);
        assert(removed.drop_last() =~= settings.drop_last().remove(at));
        assert(removed.last() == settings.last());
    }
}

/// Reads the theme setting.
pub fn current_theme(source: &str) -> (result: Result<Option<ThemeValue>>)
    ensures
        result is Ok <==> theme_of(source@) is Ok,
        result matches Ok(theme) ==> theme_of(source@) == Ok::<_, Seq<char>>(theme_view(theme)),
        result matches Err(error) ==> error.is_invalid(theme_of(source@)->Err_0),
{
    let _ = parse_settings(source)?;
    let found = properties(source, syntax());
    match theme_property(&found)? {
        None => Ok(None),
        Some(index) => {
            assert(property_views(found@)[index as int] == found@[index as int]@);
            match &found[index].value {
                Some(value) => {
                    proof {
                        lemma_nests_within_more(
                            json_view(*value),
                            (MAXIMUM_NESTING - 1) as nat,
                            WRITE_DEPTH as nat,
                        );
                    }
                    Ok(Some(ThemeValue::of(copy_value(value))))
                },
                None => Err(Error::invalid("Zed theme setting has no valid value".to_owned())),
            }
        },
    }
}

/// The value to insert for a JSON value, if it nests at most `levels` deep.
fn input_value(value: Value, levels: usize) -> (result: Option<CstInputValue>)
    ensures
        result is Some <==> json_view(value).nests_within(levels as nat),
        result matches Some(input) ==> input_view(input) == json_view(value),
    decreases levels,
{
    let ghost whole = json_view(value);
    let input = match take_apart(value) {
        Level::Null => Input::Null,
        Level::Bool(value) => Input::Bool(value),
        Level::Number(digits) => Input::Number(digits),
        Level::Text(text) => Input::Text(text),
        Level::List(elements) => {
            if levels == 0 {
                return None;
            }
            let ghost all = elements@;
            let mut inputs: Vec<CstInputValue> = Vec::new();
            for element in it: elements.into_iter()
                invariant
                    it.seq() == all,
                    levels > 0,
                    whole == json_view(value),
                    whole == JsonView::List(json_views(all)),
                    inputs@.len() == it.index(),
                    forall|i: int|
                        0 <= i < inputs@.len() ==> input_view(#[trigger] inputs@[i]) == json_view(
                            all[i],
                        ) && json_view(all[i]).nests_within((levels - 1) as nat),
            {
                let ghost index = it.index() as int;
                assert(index < all.len());
                assert(whole->List_0[index] == json_view(element));
                inputs.push(input_value(element, levels - 1)?);
            }
            proof {
                assert(input_views(inputs@) =~= json_views(all));
                assert forall|i: int| 0 <= i < json_views(all).len() implies (
                #[trigger] json_views(all)[i]).nests_within((levels - 1) as nat) by {
                    assert(input_view(inputs@[i]) == json_view(all[i]));
                }
            }
            Input::List(inputs)
        },
        Level::Object(members) => {
            if levels == 0 {
                return None;
            }
            let ghost all = members@;
            let mut inputs: Vec<(String, CstInputValue)> = Vec::new();
            for member in it: members.into_iter()
                invariant
                    it.seq() == all,
                    levels > 0,
                    whole == json_view(value),
                    whole == JsonView::Object(member_views(all)),
                    inputs@.len() == it.index(),
                    forall|i: int|
                        0 <= i < inputs@.len() ==> (#[trigger] inputs@[i]).0@ == all[i].0@
                            && input_view(inputs@[i].1) == json_view(all[i].1) && json_view(
                            all[i].1,
                        ).nests_within((levels - 1) as nat),
            {
                let ghost index = it.index() as int;
                assert(index < all.len());
                assert(whole->Object_0[index] == (member.0@, json_view(member.1)));
                inputs.push((member.0, input_value(member.1, levels - 1)?));
            }
            proof {
                assert(field_views(inputs@) =~= member_views(all));
                assert forall|i: int| 0 <= i < member_views(all).len() implies (
                #[trigger] member_views(all)[i]).1.nests_within((levels - 1) as nat) by {
                    assert(inputs@[i].0@ == all[i].0@);
                }
            }
            Input::Object(inputs)
        },
    };
    Some(make_input(input))
}

/// The first `count` texts are a prefix of all of them.
proof fn lemma_concatenated_prefix(texts: Seq<Seq<char>>, count: int)
    requires
        0 <= count <= texts.len(),
    ensures
        concatenated(texts.take(count)).len() <= concatenated(texts).len(),
        concatenated(texts.take(count)) == concatenated(texts).take(
            concatenated(texts.take(count)).len() as int,
        ),
        count < texts.len() ==> concatenated(texts.take(count + 1)) == concatenated(
            texts.take(count),
        ) + texts[count],
    decreases texts.len(),
{
    if count < texts.len() {
        assert(texts.take(count + 1).drop_last() =~= texts.take(count));
        lemma_concatenated_prefix(texts.drop_last(), count);
        assert(texts.drop_last().take(count) =~= texts.take(count));
        let before = concatenated(texts.take(count)).len() as int;
        assert(concatenated(texts).take(before) =~= concatenated(texts.drop_last()).take(before));
    } else {
        assert(texts.take(count) =~= texts);
        assert(concatenated(texts).take(concatenated(texts).len() as int) =~= concatenated(texts));
    }
}

/// How many characters the first `count` texts have.
fn length_of_first(texts: &Vec<String>, count: usize) -> (length: usize)
    requires
        count <= texts@.len(),
        concatenated(views(texts@)).len() <= usize::MAX,
    ensures
        length == concatenated(views(texts@).take(count as int)).len(),
{
    let ghost all = views(texts@);
    let mut length: usize = 0;
    let mut index: usize = 0;
    assert(all.take(0) =~= Seq::empty());
    while index < count
        invariant
            all == views(texts@),
            index <= count <= texts@.len(),
            concatenated(all).len() <= usize::MAX,
            length == concatenated(all.take(index as int)).len(),
        decreases count - index,
    {
        proof {
            lemma_concatenated_prefix(all, index as int);
            lemma_concatenated_prefix(all, index + 1);
        }
        let piece = characters(texts[index].as_str());
        length += piece.len();
        index += 1;
    }
    length
}

impl OutlineView {
    /// Where the object starts in the document.
    pub open spec fn object_start(self) -> int {
        concatenated(self.parts.take(self.object)).len() as int
    }

    /// Where the child at `index` starts in the document.
    pub open spec fn child_start(self, index: int) -> int {
        self.object_start() + concatenated(child_texts(self.children).take(index)).len()
    }

    /// Where the closing brace of the object is in the document.
    pub open spec fn close(self) -> int {
        self.object_start() + self.parts[self.object].len() - 1
    }

    /// Whether the object spans several lines.
    pub open spec fn is_multiline(self) -> bool {
        exists|i: int| 0 <= i < self.children.len() && (#[trigger] self.children[i]).1
    }
}

/// The positions in an outline are positions in its source, in order.
proof fn lemma_outline_positions(outline: OutlineView, source: Seq<char>)
    requires
        outline.is_outline_of(source),
    ensures
        0 <= outline.object_start() <= outline.close() < source.len(),
        source[outline.close()] == '}',
        forall|i: int|
            0 <= i <= outline.children.len() ==> outline.object_start() <= #[trigger]
                outline.child_start(i) <= source.len(),
        forall|i: int|
            0 <= i < outline.children.len() ==> #[trigger] outline.child_start(i)
                + outline.children[i].0.len() == outline.child_start(i + 1),
        forall|i: int, j: int|
            0 <= i <= j <= outline.children.len() ==> #[trigger] outline.child_start(i)
                <= #[trigger] outline.child_start(j),
{
    let parts = outline.parts;
    let texts = child_texts(outline.children);
    let object = parts[outline.object];
    lemma_concatenated_prefix(parts, outline.object);
    lemma_concatenated_prefix(parts, outline.object + 1);
    let start = outline.object_start();
    assert(start + object.len() <= source.len());
    assert(texts.take(texts.len() as int) =~= texts);
    assert forall|i: int| 0 <= i <= texts.len() implies outline.object_start() <= #[trigger]
        outline.child_start(i) <= source.len() by {
        lemma_concatenated_prefix(texts, i);
    }
    assert forall|i: int| 0 <= i < texts.len() implies #[trigger] outline.child_start(i)
        + outline.children[i].0.len() == outline.child_start(i + 1) by {
        lemma_concatenated_prefix(texts, i);
    }
    assert forall|i: int, j: int| 0 <= i <= j <= texts.len() implies #[trigger] outline.child_start(
        i,
    ) <= #[trigger] outline.child_start(j) by {
        lemma_concatenated_prefix(texts.take(j), i);
        assert(texts.take(j).take(i) =~= texts.take(i));
    }
    let last = texts.len() - 1;
    lemma_concatenated_prefix(texts, last);
    reveal_strlit("}");
    assert(texts[last] == "}"@);
    assert(concatenated(texts) == concatenated(texts.take(last)) + "}"@);
    assert(object.last() == '}');
    let upto = concatenated(parts.take(outline.object + 1));
    assert(upto == concatenated(parts.take(outline.object)) + object);
    assert(upto[outline.close()] == '}');
    assert(source.take(upto.len() as int)[outline.close()] == '}');
}

/// Where the object starts in the document.
fn root_object_start(outline: &Outline) -> (start: usize)
    requires
        0 <= outline@.object < outline@.parts.len(),
        concatenated(outline@.parts).len() <= usize::MAX,
    ensures
        start == outline@.object_start(),
{
    length_of_first(&outline.parts, outline.object)
}

/// Whether the object spans several lines.
fn object_is_multiline(outline: &Outline) -> (multiline: bool)
    ensures
        multiline == outline@.is_multiline(),
{
    let mut index: usize = 0;
    while index < outline.children.len()
        invariant
            index <= outline.children@.len(),
            forall|i: int| 0 <= i < index ==> !(#[trigger] outline@.children[i]).1,
        decreases outline.children@.len() - index,
    {
        assert(outline@.children[index as int].1 == outline.children@[index as int].newline);
        if outline.children[index].newline {
            return true;
        }
        index += 1;
    }
    false
}

/// `text` with `insertion` at the position `at`.
pub open spec fn inserted(text: Seq<char>, at: int, insertion: Seq<char>) -> Seq<char> {
    text.take(at) + insertion + text.skip(at)
}

/// `text` without the characters from `start` up to `end`.
pub open spec fn cut(text: Seq<char>, start: int, end: int) -> Seq<char> {
    text.take(start) + text.skip(end)
}

/// What stands between the last property and the theme setting that is appended
/// to a one-line object.
pub open spec fn compact_separator(properties: Seq<PropertyView>) -> Seq<char> {
    if properties.len() == 0 {
        ""@
    } else if properties.last().comma is Some {
        " "@
    } else {
        ", "@
    }
}

/// What stands behind the theme setting that is appended to a one-line object.
pub open spec fn compact_comma(properties: Seq<PropertyView>) -> Seq<char> {
    if properties.len() > 0 && properties.last().comma is Some {
        ","@
    } else {
        ""@
    }
}

/// The theme setting as it is written.
pub open spec fn theme_setting(theme: Seq<char>) -> Seq<char> {
    "\"theme\": "@ + theme
}

/// The document with the theme setting appended to its one-line object.
pub open spec fn with_compact_theme(
    source: Seq<char>,
    outline: OutlineView,
    properties: Seq<PropertyView>,
    theme: Seq<char>,
) -> Seq<char> {
    inserted(
        source,
        outline.close(),
        compact_separator(properties) + theme_setting(theme) + compact_comma(properties),
    )
}

fn append_compact_theme(
    source: &str,
    outline: &Outline,
    properties: &Vec<Property>,
    theme: &ThemeValue,
) -> (text: String)
    requires
        outline@.is_outline_of(source@),
    ensures
        text@ == with_compact_theme(
            source@,
            outline@,
            property_views(properties@),
            json_text(theme@),
        ),
{
    let ghost settings = property_views(properties@);
    proof {
        lemma_outline_positions(outline@, source@);
        assert(outline@.parts[outline@.object] == outline.parts@[outline.object as int]@);
    }
    let chars = characters(source);
    let total = chars.len();
    let object = characters(outline.parts[outline.object].as_str());
    let close = root_object_start(outline) + (object.len() - 1);
    let uses_trailing_comma = if properties.len() == 0 {
        false
    } else {
        assert(settings.last() == properties@[properties@.len() - 1]@);
        properties[properties.len() - 1].comma.is_some()
    };
    let separator = if properties.len() == 0 {
        ""
    } else if uses_trailing_comma {
        " "
    } else {
        ", "
    };
    let comma = if uses_trailing_comma {
        ","
    } else {
        ""
    };
    let mut text = text_between(&chars, 0, close);
    text.append(separator);
    text.append("\"theme\": ");
    text.append(theme.to_text().as_str());
    text.append(comma);
    text.append(text_between(&chars, close, total).as_str());
    assert(text@ =~= with_compact_theme(source@, outline@, settings, json_text(theme@)));
    text
}

/// Whether `text` ends with `ending`.
pub open spec fn ends_with(text: Seq<char>, ending: Seq<char>) -> bool {
    &&& ending.len() <= text.len()
    &&& text.skip(text.len() - ending.len()) == ending
}

/// Where the cut starts that takes a setting out of a one-line object: a space
/// before a setting with a comma goes with it, and so does a comma and a space
/// before one without.
pub open spec fn cut_start(before: Seq<char>, has_comma: bool) -> int {
    if has_comma {
        if ends_with(before, " "@) {
            before.len() - 1
        } else {
            before.len() as int
        }
    } else if ends_with(before, ", "@) {
        before.len() - 2
    } else {
        before.len() as int
    }
}

/// The document without the setting, whose object is on one line.
pub open spec fn without_compact_theme(
    source: Seq<char>,
    outline: OutlineView,
    property: PropertyView,
) -> Seq<char> {
    let start = outline.child_start(property.child);
    let end = match property.comma {
        Some(comma) => outline.child_start(comma + 1),
        None => outline.child_start(property.child + 1),
    };
    cut(source, cut_start(source.take(start), property.comma is Some), end)
}

/// The texts of the children.
fn texts_of(children: &Vec<Child>) -> (texts: Vec<String>)
    ensures
        views(texts@) == child_texts(
            children@.map_values(|child: Child| (child.text@, child.newline)),
        ),
{
    let mut texts: Vec<String> = Vec::new();
    let mut index: usize = 0;
    while index < children.len()
        invariant
            index <= children@.len(),
            texts@.len() == index,
            forall|i: int| 0 <= i < index ==> (#[trigger] texts@[i])@ == children@[i].text@,
        decreases children@.len() - index,
    {
        texts.push(children[index].text.clone());
        index += 1;
    }
    assert(views(texts@) =~= child_texts(
        children@.map_values(|child: Child| (child.text@, child.newline)),
    ));
    texts
}

fn remove_compact_theme(source: &str, outline: &Outline, property: &Property) -> (text: String)
    requires
        outline@.is_outline_of(source@),
        0 < property@.child < outline@.children.len() - 1,
        property@.comma matches Some(comma) ==> property@.child < comma < outline@.children.len()
            - 1,
    ensures
        text@ == without_compact_theme(source@, outline@, property@),
{
    proof {
        reveal_strlit(" ");
        reveal_strlit(", ");
        lemma_outline_positions(outline@, source@);
        lemma_concatenated_prefix(outline@.parts, outline@.object);
        lemma_concatenated_prefix(outline@.parts, outline@.object + 1);
    }
    let chars = characters(source);
    let total = chars.len();
    let texts = texts_of(&outline.children);
    let count = texts.len();
    assert(views(texts@).len() == outline@.children.len());
    assert(property.child < count);
    let object_start = root_object_start(outline);
    let before_property = length_of_first(&texts, property.child);
    assert(object_start + before_property == outline@.child_start(property@.child));
    let property_start = object_start + before_property;
    let mut start = property_start;
    let end = match property.comma {
        Some(comma) => {
            let before_next = length_of_first(&texts, comma + 1);
            assert(object_start + before_next == outline@.child_start(comma as int + 1));
            if start >= 1 && chars[start - 1] == ' ' {
                start -= 1;
            }
            object_start + before_next
        },
        None => {
            let before_next = length_of_first(&texts, property.child + 1);
            assert(object_start + before_next == outline@.child_start(property@.child + 1));
            if start >= 2 && chars[start - 2] == ',' && chars[start - 1] == ' ' {
                start -= 2;
            }
            object_start + before_next
        },
    };
    proof {
        let before = source@.take(property_start as int);
        if property.comma is Some {
            assert(ends_with(before, " "@) == (property_start >= 1 && before[property_start - 1]
                == ' ')) by {
                if property_start >= 1 && before[property_start - 1] == ' ' {
                    assert(before.skip(before.len() - 1) =~= " "@);
                }
                if ends_with(before, " "@) {
                    assert(before.skip(before.len() - 1)[0] == ' ');
                }
            }
        } else {
            assert(ends_with(before, ", "@) == (property_start >= 2 && before[property_start - 2]
                == ',' && before[property_start - 1] == ' ')) by {
                if property_start >= 2 && before[property_start - 2] == ',' && before[property_start
                    - 1] == ' ' {
                    assert(before.skip(before.len() - 2) =~= ", "@);
                }
                if ends_with(before, ", "@) {
                    assert(before.skip(before.len() - 2)[0] == ',');
                    assert(before.skip(before.len() - 2)[1] == ' ');
                }
            }
        }
    }
    let mut text = text_between(&chars, 0, start);
    text.append(text_between(&chars, end, total).as_str());
    assert(text@ =~= without_compact_theme(source@, outline@, property@));
    text
}

/// What setting the theme gives: the edited document, or why it cannot be edited.
pub open spec fn theme_set(source: Seq<char>, theme: Option<JsonView>) -> core::result::Result<
    Seq<char>,
    Seq<char>,
> {
    let properties = settings_properties(source, settings_syntax());
    match settings_object(source) {
        Err(fault) => Err(fault),
        Ok(outline) => match (theme_among(properties, 0, None), theme) {
            (Err(fault), _) => Err(fault),
            (Ok(Some(index)), Some(theme)) => Ok(
                with_value(source, settings_syntax(), index, theme),
            ),
            (Ok(Some(index)), None) => if !outline.is_multiline() && index + 1 == properties.len() {
                Ok(without_compact_theme(source, outline, properties[index]))
            } else {
                Ok(without_property(source, settings_syntax(), index))
            },
            (Ok(None), Some(theme)) => if !outline.is_multiline() {
                Ok(with_compact_theme(source, outline, properties, json_text(theme)))
            } else {
                Ok(with_property(source, settings_syntax(), "theme"@, theme))
            },
            (Ok(None), None) => Ok(source),
        },
    }
}

/// Whether the setting is read again as it was written: so are its numbers, and it holds
/// no backslash if it is written over another or into an object of several lines.
pub open spec fn is_kept_in(source: Seq<char>, theme: Option<JsonView>) -> bool {
    theme matches Some(value) ==> value.is_exact() && (is_written_over(source)
        ==> value.has_no_backslash())
}

/// Whether the document has a theme setting or an object of several lines.
pub open spec fn is_written_over(source: Seq<char>) -> bool {
    ||| settings_object(source) matches Ok(outline) && outline.is_multiline()
    ||| theme_among(settings_properties(source, settings_syntax()), 0, None) matches Ok(Some(_))
}

/// Whether setting the theme takes effect: it is read back, and the other settings
/// stay as they are.
pub open spec fn takes_effect(source: Seq<char>, theme: Option<JsonView>) -> bool {
    theme_set(source, theme) matches Ok(updated) && {
        &&& theme_of(updated) == Ok::<_, Seq<char>>(theme)
        &&& other_settings(updated) == other_settings(source)
    }
}

fn no_valid_value() -> (error: Error)
    ensures
        error.is_invalid("Zed theme setting has no valid value"@),
{
    Error::invalid("Zed theme setting has no valid value".to_owned())
}

/// Sets the theme setting of a document or takes it out. The setting is read back, and
/// the others stay as they are. A value that is written goes down once for each level: it
/// nests no deeper than one that was read from a saved state.
pub fn set_theme(source: &str, theme: Option<&ThemeValue>) -> (result: Result<String>)
    requires
        theme matches Some(value) ==> value@.nests_within(READ_DEPTH as nat),
    ensures
        result is Ok <==> theme_set(source@, theme_view_of(theme)) is Ok,
        result matches Ok(text) ==> theme_set(source@, theme_view_of(theme)) == Ok::<_, Seq<char>>(
            text@,
        ),
        result matches Err(error) ==> error.is_invalid(
            theme_set(source@, theme_view_of(theme))->Err_0,
        ),
        result is Ok ==> (is_kept_in(source@, theme_view_of(theme)) ==> takes_effect(
            source@,
            theme_view_of(theme),
        )),
{
    let outline = parse_settings(source)?;
    let found = properties(source, syntax());
    let ghost settings = settings_of(property_views(found@));
    proof {
        reveal_strlit("theme");
        if let Ok(place) = theme_among(property_views(found@), 0, None) {
            lemma_theme_is_unique(property_views(found@), 0, None, place);
        }
    }
    match (theme_property(&found)?, theme) {
        (Some(index), Some(theme)) => {
            let input = match input_value(theme.value_copy(), READ_DEPTH) {
                Some(input) => input,
                None => {
                    return Err(no_valid_value());
                },
            };
            match set_value(source, syntax(), index, input) {
                Some(text) => {
                    proof {
                        if is_kept_in(source@, Some(theme@)) {
                            let setting = (settings[index as int].0, Some(theme@));
                            lemma_others_after_update(settings, index as int, setting);
                            lemma_theme_of_settings(
                                text@,
                                settings.update(index as int, setting),
                                Some(index as int),
                            );
                        }
                    }
                    Ok(text)
                },
                None => Err(no_valid_value()),
            }
        },
        (Some(index), None) => {
            assert(property_views(found@)[index as int] == found@[index as int]@);
            if !object_is_multiline(&outline) && index == found.len() - 1 {
                proof {
                    assert(settings.drop_last() =~= settings.remove(index as int));
                    lemma_others_after_removal(settings, index as int);
                    lemma_theme_of_settings(
                        without_compact_theme(source@, outline@, found@[index as int]@),
                        settings.drop_last(),
                        None,
                    );
                }
                Ok(remove_compact_theme(source, &outline, &found[index]))
            } else {
                match remove_property(source, syntax(), index) {
                    Some(text) => {
                        proof {
                            lemma_others_after_removal(settings, index as int);
                            lemma_theme_of_settings(
                                text@,
                                settings.remove(index as int),
                                None,
                            );
                        }
                        Ok(text)
                    },
                    None => Err(no_valid_value()),
                }
            }
        },
        (None, Some(theme)) => {
            let value = theme.value_copy();
            let ghost added: Setting = (Some(Ok("theme"@)), Some(theme@));
            assert(settings.push(added).drop_last() =~= settings);
            if !object_is_multiline(&outline) {
                proof {
                    if is_kept_in(source@, Some(theme@)) {
                        lemma_theme_of_settings(
                            with_compact_theme(
                                source@,
                                outline@,
                                property_views(found@),
                                json_text(theme@),
                            ),
                            settings.push(added),
                            Some(settings.len() as int),
                        );
                    }
                }
                Ok(append_compact_theme(source, &outline, &found, theme))
            } else {
                let input = match input_value(value, READ_DEPTH) {
                    Some(input) => input,
                    None => {
                        return Err(no_valid_value());
                    },
                };
                match append_property(source, syntax(), "theme", input) {
                    Some(text) => {
                        proof {
                            if is_kept_in(source@, Some(theme@)) {
                                lemma_theme_of_settings(
                                    text@,
                                    settings.push(added),
                                    Some(settings.len() as int),
                                );
                            }
                        }
                        Ok(text)
                    },
                    None => Err(no_valid_value()),
                }
            }
        },
        (None, None) => Ok(source.to_owned()),
    }
}

/// The value of a theme setting, if there is one.
pub open spec fn theme_view_of(theme: Option<&ThemeValue>) -> Option<JsonView> {
    match theme {
        Some(value) => Some(value@),
        None => None,
    }
}

/// Taking out the setting that was appended to a one-line object gives back the
/// document, if the edited document has the setting where it was put, and a comma
/// behind it where one was put. An object without properties must not leave a comma
/// and a space before its closing brace.
pub proof fn lemma_compact_round_trip(
    source: Seq<char>,
    outline: OutlineView,
    properties: Seq<PropertyView>,
    theme: Seq<char>,
    edited: OutlineView,
    setting: PropertyView,
)
    requires
        outline.is_outline_of(source),
        properties.len() == 0 ==> !ends_with(source.take(outline.close()), ", "@),
        edited.child_start(setting.child) == outline.close() + compact_separator(properties).len(),
        edited.child_start(setting.child + 1) == edited.child_start(setting.child) + theme_setting(
            theme,
        ).len(),
        setting.comma is Some <==> properties.len() > 0 && properties.last().comma is Some,
        setting.comma matches Some(comma) ==> edited.child_start(comma + 1) == edited.child_start(
            setting.child + 1,
        ) + 1,
    ensures
        without_compact_theme(
            with_compact_theme(source, outline, properties, theme),
            edited,
            setting,
        ) == source,
{
    lemma_outline_positions(outline, source);
    reveal_strlit("");
    reveal_strlit(" ");
    reveal_strlit(", ");
    reveal_strlit(",");
    let close = outline.close();
    let separator = compact_separator(properties);
    let added = with_compact_theme(source, outline, properties, theme);
    let start = close + separator.len();
    let end = start + theme_setting(theme).len() + compact_comma(properties).len();
    let before = added.take(start);
    assert(before =~= source.take(close) + separator);
    assert(before.skip(before.len() - separator.len()) =~= separator);
    if properties.len() == 0 {
        assert(before =~= source.take(close));
    }
    assert(cut_start(before, setting.comma is Some) == close);
    assert(added.take(close) =~= source.take(close));
    assert(added.skip(end) =~= source.skip(close));
    assert(source.take(close) + source.skip(close) =~= source);
}

} // verus!
