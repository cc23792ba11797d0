//! What is remembered between activation and restoration.

use crate::json_value::{
    copy_value, json_read, json_view, lemma_nests_within_more, line_bytes, make_value, member_views,
    names_ascend, pretty_json, pretty_text, read_bytes, take_apart, JsonView, Level, Part,
    READ_DEPTH, WRITE_DEPTH,
};
use crate::text::{decimal_of, lemma_text_order_total, same_text, text_before};
use crate::zed_settings::document::{theme_view, ThemeValue};
use crate::zed_settings::nesting::MAXIMUM_NESTING;
use crate::{Error, Result};
use serde_json::Value;
use vstd::prelude::*;
use vstd::utf8::encode_utf8;

verus! {

/// Whether the managed theme was activated, and the setting it replaced.
#[derive(Debug)]
pub struct ActivationState {
    pub active: bool,
    pub previous_theme: Option<ThemeValue>,
}

/// What an [`ActivationState`] says.
pub struct StateView {
    pub active: bool,
    pub previous_theme: Option<JsonView>,
}

impl View for ActivationState {
    type V = StateView;

    open spec fn view(&self) -> StateView {
        StateView { active: self.active, previous_theme: theme_view(self.previous_theme) }
    }
}

impl StateView {
    /// The fields of the saved state.
    pub open spec fn fields(self) -> Seq<(Seq<char>, JsonView)> {
        match self.previous_theme {
            Some(theme) => seq![
                ("active"@, JsonView::Bool(self.active)),
                ("previous_theme"@, theme),
                ("version"@, JsonView::Number("1"@)),
            ],
            None => seq![
                ("active"@, JsonView::Bool(self.active)),
                ("version"@, JsonView::Number("1"@)),
            ],
        }
    }

    /// The saved state as it is written.
    pub open spec fn content(self) -> Seq<u8> {
        encode_utf8(pretty_json(JsonView::Object(self.fields())).push('\n'))
    }

    /// Whether the theme nests no deeper than one that was read.
    pub open spec fn is_shallow(self) -> bool {
        self.previous_theme matches Some(theme) ==> theme.nests_within((READ_DEPTH - 1) as nat)
    }

    /// Whether what is written is read as the same state: so are the numbers of the theme,
    /// and it does not nest too deep.
    pub open spec fn is_kept(self) -> bool {
        self.previous_theme matches Some(theme) ==> theme.is_exact() && theme.nests_within(
            (READ_DEPTH - 1) as nat,
        )
    }
}

/// The value of a field.
pub open spec fn field_at(fields: Seq<(Seq<char>, JsonView)>, key: Seq<char>) -> Option<JsonView>
    decreases fields.len(),
{
    if fields.len() == 0 {
        None
    } else if fields[0].0 == key {
        Some(fields[0].1)
    } else {
        field_at(fields.drop_first(), key)
    }
}

fn find_field(fields: &Vec<(String, Value)>, key: &str) -> (value: Option<Value>)
    requires
        JsonView::Object(member_views(fields@)).nests_within(READ_DEPTH as nat),
    ensures
        value is Some <==> field_at(member_views(fields@), key@) is Some,
        value matches Some(value) ==> field_at(member_views(fields@), key@) == Some(
            json_view(value),
        ) && json_view(value).nests_within((READ_DEPTH - 1) as nat),
{
    let ghost all = member_views(fields@);
    let mut index: usize = 0;
    assert(all.skip(0) =~= all);
    while index < fields.len()
        invariant
            all == member_views(fields@),
            JsonView::Object(all).nests_within(READ_DEPTH as nat),
            index <= fields@.len(),
            field_at(all, key@) == field_at(all.skip(index as int), key@),
        decreases fields@.len() - index,
    {
        let ghost rest = all.skip(index as int);
        assert(rest[0] == all[index as int]);
        assert(all[index as int] == (fields@[index as int].0@, json_view(fields@[index as int].1)));
        assert(rest.drop_first() =~= all.skip(index + 1));
        if same_text(fields[index].0.as_str(), key) {
            proof {
                let whole = JsonView::Object(all);
                assert(whole.nests_within(READ_DEPTH as nat));
                assert(whole->Object_0[index as int].1.nests_within((READ_DEPTH - 1) as nat));
                lemma_nests_within_more(
                    all[index as int].1,
                    (READ_DEPTH - 1) as nat,
                    WRITE_DEPTH as nat,
                );
            }
            return Some(copy_value(&fields[index].1));
        }
        index += 1;
    }
    None
}

/// The state that the fields of a saved state give, or why they give none.
pub open spec fn state_of_fields(fields: Seq<(Seq<char>, JsonView)>) -> core::result::Result<
    StateView,
    Seq<char>,
> {
    if field_at(fields, "version"@) != Some(JsonView::Number("1"@)) {
        Err("unsupported saved Zed theme state version"@)
    } else {
        match field_at(fields, "active"@) {
            Some(JsonView::Bool(active)) => Ok(
                StateView { active, previous_theme: field_at(fields, "previous_theme"@) },
            ),
            _ => Err("saved Zed theme state has no active flag"@),
        }
    }
}

/// The state that saved bytes give, or why they give none.
pub open spec fn saved_state(content: Seq<u8>) -> core::result::Result<StateView, Seq<char>> {
    match json_read(content) {
        Err(fault) => Err("invalid saved Zed theme state: "@ + fault),
        Ok(JsonView::Object(fields)) => state_of_fields(fields),
        Ok(_) => Err("saved Zed theme state must be an object"@),
    }
}

/// Reads a saved state.
pub fn parse_state(content: &[u8]) -> (result: Result<ActivationState>)
    ensures
        result is Ok <==> saved_state(content@) is Ok,
        result matches Ok(state) ==> saved_state(content@) == Ok::<_, Seq<char>>(state@)
            && state@.is_shallow(),
        result matches Err(error) ==> error.is_invalid(saved_state(content@)->Err_0),
{
    let value = match read_bytes(content) {
        Ok(value) => value,
        Err(fault) => {
            let mut message = "invalid saved Zed theme state: ".to_owned();
            message.append(fault.as_str());
            return Err(Error::invalid(message));
        },
    };
    let fields = match take_apart(value) {
        Level::Object(fields) => fields,
        _ => {
            return Err(Error::invalid("saved Zed theme state must be an object".to_owned()));
        },
    };
    let supported = match find_field(&fields, "version") {
        Some(version) => match take_apart(version) {
            Level::Number(digits) => same_text(digits.as_str(), "1"),
            _ => false,
        },
        None => false,
    };
    if !supported {
        return Err(Error::invalid("unsupported saved Zed theme state version".to_owned()));
    }
    let flag = match find_field(&fields, "active") {
        Some(flag) => match take_apart(flag) {
            Level::Bool(active) => Some(active),
            _ => None,
        },
        None => None,
    };
    let active = match flag {
        Some(active) => active,
        None => {
            return Err(Error::invalid("saved Zed theme state has no active flag".to_owned()));
        },
    };
    let previous_theme = match find_field(&fields, "previous_theme") {
        Some(theme) => {
            proof {
                lemma_nests_within_more(
                    json_view(theme),
                    (READ_DEPTH - 1) as nat,
                    (MAXIMUM_NESTING - 1) as nat,
                );
            }
            Some(ThemeValue::of(theme))
        },
        None => None,
    };
    Ok(ActivationState { active, previous_theme })
}

/// The three field names ascend.
proof fn lemma_field_names()
    ensures
        text_before("active"@, "previous_theme"@),
        text_before("previous_theme"@, "version"@),
        text_before("active"@, "version"@),
        "active"@ != "version"@,
        "active"@ != "previous_theme"@,
        "previous_theme"@ != "version"@,
{
    reveal_strlit("active");
    reveal_strlit("previous_theme");
    reveal_strlit("version");
    lemma_text_order_total("active"@, "version"@);
    lemma_text_order_total("active"@, "previous_theme"@);
    lemma_text_order_total("previous_theme"@, "version"@);
}

/// The fields of a state give back the state.
proof fn lemma_fields_give_state(state: StateView)
    ensures
        state_of_fields(state.fields()) == Ok::<_, Seq<char>>(state),
        names_ascend(state.fields()),
{
    lemma_field_names();
    reveal_with_fuel(field_at, 4);
    let fields = state.fields();
    assert(fields.drop_first()[0] == fields[1]);
    if state.previous_theme is Some {
        assert(fields.drop_first().drop_first()[0] == fields[2]);
    } else {
        assert(fields.drop_first().drop_first().len() == 0);
    }
}

/// Writes a state to be saved. What is saved reads back as the state: a missing theme
/// stays missing, and a theme that does not nest too deep, and whose numbers are read as
/// they are written, stays what it is.
pub fn state_content(state: &ActivationState) -> (result: Result<Vec<u8>>)
    ensures
        result is Ok,
        result matches Ok(content) ==> content@ == state@.content(),
        result matches Ok(content) ==> (state@.is_kept() ==> saved_state(content@) == Ok::<
            _,
            Seq<char>,
        >(state@)),
{
    let mut fields: Vec<(String, Value)> = Vec::new();
    fields.push(("active".to_owned(), make_value(Part::Bool(state.active))));
    if let Some(theme) = &state.previous_theme {
        fields.push(("previous_theme".to_owned(), theme.value_copy()));
    }
    fields.push(("version".to_owned(), make_value(Part::Count(1))));
    proof {
        reveal_strlit("1");
        assert(decimal_of(1) =~= "1"@);
        assert(member_views(fields@) =~= state@.fields());
        lemma_fields_give_state(state@);
        reveal_with_fuel(JsonView::nests_within, 2);
        reveal_with_fuel(JsonView::is_exact, 2);
        let object = JsonView::Object(state@.fields());
        if let Some(theme) = state@.previous_theme {
            lemma_nests_within_more(theme, (MAXIMUM_NESTING - 1) as nat, (WRITE_DEPTH - 1) as nat);
        }
        assert(object.nests_within(WRITE_DEPTH as nat));
        if state@.is_kept() {
            assert(object.is_exact());
            assert(object.nests_within(READ_DEPTH as nat));
        }
    }
    match pretty_text(&make_value(Part::Object(fields))) {
        Some(text) => Ok(line_bytes(text)),
        None => Err(Error::invalid("saved Zed theme state cannot be written".to_owned())),
    }
}

} // verus!
