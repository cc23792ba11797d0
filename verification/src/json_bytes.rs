//! Writes JSON trees as text.

use crate::json::Json;
use crate::json_value::{
    is_whole, json_read, json_view, json_views, lemma_nests_within_more, line_bytes, make_value,
    member_views, pretty_json, pretty_text, JsonView, Part, READ_DEPTH, WRITE_DEPTH,
};
use crate::map::keys_ascend;
use crate::text::decimal_of;
use serde_json::Value;
use vstd::prelude::*;
use vstd::utf8::encode_utf8;

verus! {

/// Whether a JSON value is what the tree holds.
pub open spec fn shows(view: JsonView, document: Json) -> bool
    decreases view,
{
    match (view, document) {
        (JsonView::Null, Json::Null) => true,
        (JsonView::Bool(shown), Json::Bool(value)) => shown == value,
        (JsonView::Number(digits), Json::Number(value)) => digits == decimal_of(value as nat),
        (JsonView::Text(shown), Json::Text(text)) => shown == text@,
        (JsonView::List(shown), Json::List(elements)) => shown.len() == elements@.len() && forall|
            i: int,
        |
            0 <= i < shown.len() ==> shows(#[trigger] shown[i], elements@[i]),
        (JsonView::Object(shown), Json::Object(fields)) => shown.len() == fields.listed().len()
            && forall|i: int|
            0 <= i < shown.len() ==> (#[trigger] shown[i]).0 == fields.listed()[i].0@ && shows(
                shown[i].1,
                fields.listed()[i].1,
            ),
        _ => false,
    }
}

/// A tree holds only one JSON value.
pub proof fn lemma_shown_once(one: JsonView, other: JsonView, document: Json)
    requires
        shows(one, document),
        shows(other, document),
    ensures
        one == other,
    decreases one,
{
    match (one, other, document) {
        (JsonView::List(left), JsonView::List(right), Json::List(elements)) => {
            assert forall|i: int| 0 <= i < left.len() implies left[i] == right[i] by {
                assert(shows(left[i], elements@[i]));
                assert(shows(right[i], elements@[i]));
                lemma_shown_once(left[i], right[i], elements@[i]);
            }
            assert(left =~= right);
        },
        (JsonView::Object(left), JsonView::Object(right), Json::Object(fields)) => {
            assert forall|i: int| 0 <= i < left.len() implies left[i] == right[i] by {
                assert(left[i].0 == right[i].0);
                lemma_shown_once(left[i].1, right[i].1, fields.listed()[i].1);
            }
            assert(left =~= right);
        },
        _ => {},
    }
}

proof fn lemma_decimal_is_whole(value: nat)
    ensures
        is_whole(decimal_of(value)),
        forall|i: int|
            0 <= i < decimal_of(value).len() ==> '0' <= (#[trigger] decimal_of(value)[i]) <= '9',
    decreases value,
{
    let digit = (('0' as u32) + (value % 10)) as char;
    assert('0' <= digit <= '9');
    if value >= 10 {
        lemma_decimal_is_whole(value / 10);
        assert(decimal_of(value) == decimal_of(value / 10).push(digit));
    }
}

/// The JSON value that a tree holds, if it nests at most `levels` deep.
fn value_of(document: &Json, levels: usize) -> (result: Option<Value>)
    ensures
        result matches Some(value) ==> shows(json_view(value), *document) && json_view(
            value,
        ).nests_within(levels as nat) && json_view(value).is_exact(),
        result is None ==> forall|view: JsonView| #[trigger]
            shows(view, *document) ==> !view.nests_within(levels as nat),
    decreases levels,
{
    match document {
        Json::Null => Some(make_value(Part::Null)),
        Json::Bool(value) => Some(make_value(Part::Bool(*value))),
        Json::Number(value) => {
            proof {
                lemma_decimal_is_whole(*value as nat);
            }
            Some(make_value(Part::Count(*value)))
        },
        Json::Text(text) => Some(make_value(Part::Text(text.clone()))),
        Json::List(elements) => {
            if levels == 0 {
                return None;
            }
            let mut values: Vec<Value> = Vec::new();
            let mut index: usize = 0;
            while index < elements.len()
                invariant
                    levels > 0,
                    *document == Json::List(*elements),
                    index <= elements@.len(),
                    values@.len() == index,
                    forall|i: int|
                        0 <= i < index ==> shows(json_view(#[trigger] values@[i]), elements@[i])
                            && json_view(values@[i]).nests_within((levels - 1) as nat)
                            && json_view(values@[i]).is_exact(),
                decreases elements@.len() - index,
            {
                match value_of(&elements[index], levels - 1) {
                    Some(value) => {
                        values.push(value);
                    },
                    None => {
                        assert forall|view: JsonView| #[trigger] shows(
                            view,
                            *document,
                        ) implies !view.nests_within(levels as nat) by {
                            assert(shows(view->List_0[index as int], elements@[index as int]));
                            assert(!view->List_0[index as int].nests_within((levels - 1) as nat));
                        }
                        return None;
                    },
                }
                index += 1;
            }
            let ghost views = json_views(values@);
            assert forall|i: int| 0 <= i < views.len() implies shows(
                #[trigger] views[i],
                elements@[i],
            ) && views[i].nests_within((levels - 1) as nat) && views[i].is_exact() by {
                assert(views[i] == json_view(values@[i]));
            }
            Some(make_value(Part::List(values)))
        },
        Json::Object(fields) => {
            if levels == 0 {
                return None;
            }
            let count = fields.len();
            let ghost listed = fields.listed();
            let mut values: Vec<(String, Value)> = Vec::new();
            let mut index: usize = 0;
            while index < count
                invariant
                    levels > 0,
                    *document == Json::Object(*fields),
                    listed == fields.listed(),
                    count == listed.len(),
                    index <= count,
                    values@.len() == index,
                    forall|i: int|
                        0 <= i < index ==> (#[trigger] values@[i]).0@ == listed[i].0@ && shows(
                            json_view(values@[i].1),
                            listed[i].1,
                        ) && json_view(values@[i].1).nests_within((levels - 1) as nat)
                            && json_view(values@[i].1).is_exact(),
                decreases count - index,
            {
                let (name, field) = fields.entry(index);
                match value_of(field, levels - 1) {
                    Some(value) => {
                        values.push((name.clone(), value));
                    },
                    None => {
                        assert forall|view: JsonView| #[trigger] shows(
                            view,
                            *document,
                        ) implies !view.nests_within(levels as nat) by {
                            assert(view->Object_0[index as int].0 == listed[index as int].0@);
                            assert(shows(view->Object_0[index as int].1, listed[index as int].1));
                            assert(!view->Object_0[index as int].1.nests_within(
                                (levels - 1) as nat,
                            ));
                        }
                        return None;
                    },
                }
                index += 1;
            }
            let ghost views = member_views(values@);
            proof {
                assert forall|i: int| 0 <= i < views.len() implies (#[trigger] views[i]).0
                    == listed[i].0@ && shows(views[i].1, listed[i].1) && views[i].1.nests_within(
                    (levels - 1) as nat,
                ) && views[i].1.is_exact() by {
                    assert(views[i] == (values@[i].0@, json_view(values@[i].1)));
                }
                assert(keys_ascend(listed));
            }
            Some(make_value(Part::Object(values)))
        },
    }
}

/// Whether the bytes are the value as it is written, with a line break behind it, and are
/// read as the same value.
pub open spec fn is_written_as(view: JsonView, content: Seq<u8>) -> bool {
    &&& content == encode_utf8(pretty_json(view).push('\n'))
    &&& json_read(content) == Ok::<_, Seq<char>>(view)
}

/// Writes a tree with line breaks and indents. What is written is read as what the tree
/// holds. A tree that nests deeper than can be read is not written.
pub fn json_bytes(document: &Json) -> (result: Option<Vec<u8>>)
    ensures
        result matches Some(content) ==> exists|view: JsonView| #[trigger]
            shows(view, *document) && view.nests_within(READ_DEPTH as nat) && is_written_as(
                view,
                content@,
            ),
        result is None ==> forall|view: JsonView| #[trigger]
            shows(view, *document) ==> !view.nests_within(READ_DEPTH as nat),
{
    let value = value_of(document, READ_DEPTH)?;
    proof {
        lemma_nests_within_more(json_view(value), READ_DEPTH as nat, WRITE_DEPTH as nat);
        assert(shows(json_view(value), *document));
    }
    match pretty_text(&value) {
        Some(text) => Some(line_bytes(text)),
        None => None,
    }
}

} // verus!
