//! What is saved of an activation, and whom a claim names.

use crate::json_value::JsonView;
use crate::text::trimmed;
use crate::zed_settings::document::{is_theme, managed_theme, without_themes};
use crate::zed_settings::outside::Setting;
use crate::zed_settings::session::{claim_of, source_of};
use crate::zed_settings::state::{field_at, state_of_fields, StateView};
use vstd::prelude::*;
use vstd::utf8::{encode_utf8, encode_utf8_decode_utf8, encode_utf8_valid_utf8};

verus! {

/// The saved state has a version, a flag and, if there is one, the theme to put back; read
/// again, it is the same state. A state of another version or without a flag is refused.
pub proof fn lemma_saved_fields_are_read(state: StateView, fields: Seq<(Seq<char>, JsonView)>)
    ensures
        field_at(state.fields(), "version"@) == Some(JsonView::Number("1"@)),
        field_at(state.fields(), "active"@) == Some(JsonView::Bool(state.active)),
        field_at(state.fields(), "previous_theme"@) == state.previous_theme,
        state_of_fields(state.fields()) == Ok::<_, Seq<char>>(state),
        field_at(fields, "version"@) != Some(JsonView::Number("1"@)) ==> state_of_fields(fields)
            is Err,
        !(field_at(fields, "active"@) matches Some(JsonView::Bool(_))) ==> state_of_fields(fields)
            is Err,
        state_of_fields(fields) matches Ok(read) ==> field_at(fields, "active"@) == Some(
            JsonView::Bool(read.active),
        ) && read.previous_theme == field_at(fields, "previous_theme"@),
{
    reveal_strlit("version");
    reveal_strlit("active");
    reveal_strlit("previous_theme");
    assert("version"@.len() == 7 && "active"@.len() == 6 && "previous_theme"@.len() == 14);
    reveal_with_fuel(field_at, 4);
    let all = state.fields();
    if state.previous_theme is Some {
        assert(all.drop_first()[0] == all[1]);
        assert(all.drop_first().drop_first()[0] == all[2]);
        assert(all.drop_first().drop_first().drop_first().len() == 0);
    } else {
        assert(all.drop_first()[0] == all[1]);
        assert(all.drop_first().drop_first().len() == 0);
    }
}

/// The managed theme is selected by its name.
pub proof fn lemma_managed_theme()
    ensures
        managed_theme() == JsonView::Text("Omarchy"@),
{
}

/// No claim names nobody, and a claim names exactly the owner whose name it holds between white
/// space. Settings that do not exist are an empty object, and others are the text that they
/// encode.
pub proof fn lemma_claims_and_settings(text: Seq<char>, owner: Seq<char>)
    ensures
        claim_of(None, owner) == Ok::<_, Seq<char>>(false),
        claim_of(Some(encode_utf8(text)), owner) == Ok::<_, Seq<char>>(trimmed(text) == owner),
        source_of(None) == Ok::<_, Seq<char>>("{}\n"@),
        source_of(Some(encode_utf8(text))) == Ok::<_, Seq<char>>(text),
{
    encode_utf8_decode_utf8(text);
    encode_utf8_valid_utf8(text);
}

/// Exactly the settings that are no theme are other settings, in their order.
pub proof fn lemma_other_settings(settings: Seq<Setting>, setting: Setting)
    ensures
        without_themes(settings).contains(setting) <==> settings.contains(setting) && setting.0
            != Some(Ok::<_, Seq<char>>("theme"@)),
        without_themes(settings.push(setting)) == if setting.0 == Some(
            Ok::<_, Seq<char>>("theme"@),
        ) {
            without_themes(settings)
        } else {
            without_themes(settings).push(setting)
        },
    decreases settings.len(),
{
    assert(settings.push(setting).drop_last() =~= settings);
    let kept = without_themes(settings);
    if settings.len() > 0 {
        let shorter = settings.drop_last();
        lemma_other_settings(shorter, setting);
        let earlier = without_themes(shorter);
        if kept.contains(setting) {
            let at = choose|i: int| 0 <= i < kept.len() && kept[i] == setting;
            if at < earlier.len() {
                assert(earlier[at] == setting);
                let from = choose|i: int| 0 <= i < shorter.len() && shorter[i] == setting;
                assert(settings[from] == setting);
            } else {
                assert(settings[settings.len() - 1] == setting);
                assert(!is_theme(setting));
            }
        }
        if settings.contains(setting) && !is_theme(setting) {
            let at = choose|i: int| 0 <= i < settings.len() && settings[i] == setting;
            if at < shorter.len() {
                assert(shorter[at] == setting);
                let from = choose|i: int| 0 <= i < earlier.len() && earlier[i] == setting;
                assert(kept[from] == setting);
            } else {
                assert(kept[kept.len() - 1] == setting);
            }
        }
    }
}

} // verus!
