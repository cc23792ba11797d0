//! What holds of every palette that is read.

use crate::color::is_opaque_hex;
use crate::constants::{COLOR_ALIAS_NAMES, COLOR_ALIAS_TARGETS};
use crate::palette::{
    alias_fault, alias_sources, canonical_keys, color_fault, is_palette_of,
    lemma_no_color_fault, lemma_no_missing_key, missing_keys, provenance_of, records_fault,
    text_values, tsv_records, Provenance, ResolvedPalette,
};
use crate::text::laws::{holds_char, lemma_split_joins_back, lemma_split_pair};
use crate::text::{joined, lowered, split_on};
use vstd::prelude::*;

verus! {

/// Whether the palette says that the color comes from a name of its own, from
/// another name, or from other colors.
pub open spec fn comes_from(palette: ResolvedPalette, key: Seq<char>, from: Provenance) -> bool {
    palette.provenance@.contains_key(key) && palette.provenance@[key] == from
}

/// Whether a file that sets `other` and not `key` gives `key` its color under another
/// name.
pub open spec fn is_aliased(
    palette: ResolvedPalette,
    raw: Set<Seq<char>>,
    key: Seq<char>,
    other: Seq<char>,
) -> bool {
    raw.contains(other) && !raw.contains(key) ==> comes_from(palette, key, Provenance::Alias)
}

proof fn lemma_key_provenance(
    palette: ResolvedPalette,
    records: Map<Seq<char>, Seq<char>>,
    raw: Set<Seq<char>>,
    index: int,
)
    requires
        is_palette_of(palette, records, raw),
        0 <= index < canonical_keys().len(),
    ensures
        comes_from(palette, canonical_keys()[index], provenance_of(raw, canonical_keys()[index])),
{
    assert(canonical_keys().contains(canonical_keys()[index]));
}

/// The six hues may be set under the numbers of their terminal colors, and magenta as
/// purple too: a palette file that does so and does not set the hue itself gives it
/// under another name.
pub proof fn lemma_hues_have_other_names(
    palette: ResolvedPalette,
    records: Map<Seq<char>, Seq<char>>,
    raw: Set<Seq<char>>,
)
    requires
        is_palette_of(palette, records, raw),
    ensures
        is_aliased(palette, raw, "red"@, "color1"@),
        is_aliased(palette, raw, "green"@, "color2"@),
        is_aliased(palette, raw, "yellow"@, "color3"@),
        is_aliased(palette, raw, "blue"@, "color4"@),
        is_aliased(palette, raw, "magenta"@, "color5"@),
        is_aliased(palette, raw, "magenta"@, "purple"@),
        is_aliased(palette, raw, "cyan"@, "color6"@),
{
    reveal_strlit("red");
    reveal_strlit("green");
    reveal_strlit("yellow");
    reveal_strlit("blue");
    reveal_strlit("magenta");
    reveal_strlit("cyan");
    assert("red"@.len() == 3 && "green"@.len() == 5 && "yellow"@.len() == 6);
    assert("blue"@.len() == 4 && "magenta"@.len() == 7 && "cyan"@.len() == 4);
    assert("blue"@[0] == 'b' && "cyan"@[0] == 'c');
    assert(canonical_keys()[11] == "red"@);
    lemma_key_provenance(palette, records, raw, 11);
    assert(canonical_keys()[14] == "green"@);
    lemma_key_provenance(palette, records, raw, 14);
    assert(canonical_keys()[12] == "yellow"@);
    lemma_key_provenance(palette, records, raw, 12);
    assert(canonical_keys()[16] == "blue"@);
    lemma_key_provenance(palette, records, raw, 16);
    assert(canonical_keys()[17] == "magenta"@);
    lemma_key_provenance(palette, records, raw, 17);
    assert(canonical_keys()[15] == "cyan"@);
    lemma_key_provenance(palette, records, raw, 15);
    assert(alias_sources("red"@)[0] == "color1"@);
    assert(alias_sources("green"@)[0] == "color2"@);
    assert(alias_sources("yellow"@)[0] == "color3"@);
    assert(alias_sources("blue"@)[0] == "color4"@);
    assert(alias_sources("magenta"@)[1] == "color5"@);
    assert(alias_sources("magenta"@)[0] == "purple"@);
    assert(alias_sources("cyan"@)[0] == "color6"@);
}

/// A color that the palette file sets is its own, and only such a color is. Only the
/// six hues can come from another name, and only from a name that the file sets; every
/// other color is derived.
pub proof fn lemma_provenance_follows_the_file(
    palette: ResolvedPalette,
    records: Map<Seq<char>, Seq<char>>,
    raw: Set<Seq<char>>,
    key: Seq<char>,
)
    requires
        is_palette_of(palette, records, raw),
        canonical_keys().contains(key),
    ensures
        comes_from(palette, key, Provenance::Direct) <==> raw.contains(key),
        comes_from(palette, key, Provenance::Alias) ==> {
            ||| key == "red"@ && raw.contains("color1"@)
            ||| key == "green"@ && raw.contains("color2"@)
            ||| key == "yellow"@ && raw.contains("color3"@)
            ||| key == "blue"@ && raw.contains("color4"@)
            ||| key == "magenta"@ && (raw.contains("color5"@) || raw.contains("purple"@))
            ||| key == "cyan"@ && raw.contains("color6"@)
        },
        palette.provenance@.contains_key(key),
{
    let index = choose|i: int| 0 <= i < canonical_keys().len() && canonical_keys()[i] == key;
    lemma_key_provenance(palette, records, raw, index);
}

/// Whether the palette has the color that was reported for the key, an opaque hex color
/// in small letters.
pub open spec fn has_reported(
    palette: ResolvedPalette,
    records: Map<Seq<char>, Seq<char>>,
    key: Seq<char>,
) -> bool {
    &&& records.contains_key(key)
    &&& is_opaque_hex(records[key])
    &&& palette.colors@.contains_key(key)
    &&& palette.colors@[key]@ == lowered(records[key])
}

proof fn lemma_key_is_reported(
    palette: ResolvedPalette,
    records: Map<Seq<char>, Seq<char>>,
    raw: Set<Seq<char>>,
    index: int,
)
    requires
        is_palette_of(palette, records, raw),
        records_fault(records) is None,
        0 <= index < canonical_keys().len(),
    ensures
        has_reported(palette, records, canonical_keys()[index]),
{
    let keys = canonical_keys();
    let wanted = keys.push("mode"@);
    lemma_no_missing_key(wanted, records.dom(), index);
    assert(wanted[index] == keys[index]);
    lemma_no_color_fault(keys, records, 0, index);
    assert(keys.contains(keys[index]));
    assert(text_values(palette.colors@).contains_key(keys[index]));
    assert(text_values(palette.colors@)[keys[index]] == lowered(records[keys[index]]));
}

/// A palette that is read has every color of the interface and of the terminal, as it
/// was reported.
pub proof fn lemma_palette_has_every_color(
    palette: ResolvedPalette,
    records: Map<Seq<char>, Seq<char>>,
    raw: Set<Seq<char>>,
)
    requires
        is_palette_of(palette, records, raw),
        records_fault(records) is None,
    ensures
        has_reported(palette, records, "accent"@),
        has_reported(palette, records, "selection"@),
        has_reported(palette, records, "muted"@),
        has_reported(palette, records, "background"@),
        has_reported(palette, records, "dark_background"@),
        has_reported(palette, records, "darker_background"@),
        has_reported(palette, records, "lighter_background"@),
        has_reported(palette, records, "foreground"@),
        has_reported(palette, records, "dark_foreground"@),
        has_reported(palette, records, "light_foreground"@),
        has_reported(palette, records, "bright_foreground"@),
        has_reported(palette, records, "red"@),
        has_reported(palette, records, "yellow"@),
        has_reported(palette, records, "orange"@),
        has_reported(palette, records, "green"@),
        has_reported(palette, records, "cyan"@),
        has_reported(palette, records, "blue"@),
        has_reported(palette, records, "magenta"@),
        has_reported(palette, records, "brown"@),
        has_reported(palette, records, "bright_red"@),
        has_reported(palette, records, "bright_yellow"@),
        has_reported(palette, records, "bright_green"@),
        has_reported(palette, records, "bright_cyan"@),
        has_reported(palette, records, "bright_blue"@),
        has_reported(palette, records, "bright_magenta"@),
        has_reported(palette, records, "color0"@),
        has_reported(palette, records, "color1"@),
        has_reported(palette, records, "color2"@),
        has_reported(palette, records, "color3"@),
        has_reported(palette, records, "color4"@),
        has_reported(palette, records, "color5"@),
        has_reported(palette, records, "color6"@),
        has_reported(palette, records, "color7"@),
        has_reported(palette, records, "color8"@),
        has_reported(palette, records, "color9"@),
        has_reported(palette, records, "color10"@),
        has_reported(palette, records, "color11"@),
        has_reported(palette, records, "color12"@),
        has_reported(palette, records, "color13"@),
        has_reported(palette, records, "color14"@),
        has_reported(palette, records, "color15"@),
        has_reported(palette, records, "cursor"@),
        has_reported(palette, records, "selection_background"@),
        has_reported(palette, records, "selection_foreground"@),
{
    assert(canonical_keys()[0] == "accent"@);
    lemma_key_is_reported(palette, records, raw, 0);
    assert(canonical_keys()[1] == "selection"@);
    lemma_key_is_reported(palette, records, raw, 1);
    assert(canonical_keys()[2] == "muted"@);
    lemma_key_is_reported(palette, records, raw, 2);
    assert(canonical_keys()[3] == "background"@);
    lemma_key_is_reported(palette, records, raw, 3);
    assert(canonical_keys()[4] == "dark_background"@);
    lemma_key_is_reported(palette, records, raw, 4);
    assert(canonical_keys()[5] == "darker_background"@);
    lemma_key_is_reported(palette, records, raw, 5);
    assert(canonical_keys()[6] == "lighter_background"@);
    lemma_key_is_reported(palette, records, raw, 6);
    assert(canonical_keys()[7] == "foreground"@);
    lemma_key_is_reported(palette, records, raw, 7);
    assert(canonical_keys()[8] == "dark_foreground"@);
    lemma_key_is_reported(palette, records, raw, 8);
    assert(canonical_keys()[9] == "light_foreground"@);
    lemma_key_is_reported(palette, records, raw, 9);
    assert(canonical_keys()[10] == "bright_foreground"@);
    lemma_key_is_reported(palette, records, raw, 10);
    assert(canonical_keys()[11] == "red"@);
    lemma_key_is_reported(palette, records, raw, 11);
    assert(canonical_keys()[12] == "yellow"@);
    lemma_key_is_reported(palette, records, raw, 12);
    assert(canonical_keys()[13] == "orange"@);
    lemma_key_is_reported(palette, records, raw, 13);
    assert(canonical_keys()[14] == "green"@);
    lemma_key_is_reported(palette, records, raw, 14);
    assert(canonical_keys()[15] == "cyan"@);
    lemma_key_is_reported(palette, records, raw, 15);
    assert(canonical_keys()[16] == "blue"@);
    lemma_key_is_reported(palette, records, raw, 16);
    assert(canonical_keys()[17] == "magenta"@);
    lemma_key_is_reported(palette, records, raw, 17);
    assert(canonical_keys()[18] == "brown"@);
    lemma_key_is_reported(palette, records, raw, 18);
    assert(canonical_keys()[19] == "bright_red"@);
    lemma_key_is_reported(palette, records, raw, 19);
    assert(canonical_keys()[20] == "bright_yellow"@);
    lemma_key_is_reported(palette, records, raw, 20);
    assert(canonical_keys()[21] == "bright_green"@);
    lemma_key_is_reported(palette, records, raw, 21);
    assert(canonical_keys()[22] == "bright_cyan"@);
    lemma_key_is_reported(palette, records, raw, 22);
    assert(canonical_keys()[23] == "bright_blue"@);
    lemma_key_is_reported(palette, records, raw, 23);
    assert(canonical_keys()[24] == "bright_magenta"@);
    lemma_key_is_reported(palette, records, raw, 24);
    assert(canonical_keys()[25] == "color0"@);
    lemma_key_is_reported(palette, records, raw, 25);
    assert(canonical_keys()[26] == "color1"@);
    lemma_key_is_reported(palette, records, raw, 26);
    assert(canonical_keys()[27] == "color2"@);
    lemma_key_is_reported(palette, records, raw, 27);
    assert(canonical_keys()[28] == "color3"@);
    lemma_key_is_reported(palette, records, raw, 28);
    assert(canonical_keys()[29] == "color4"@);
    lemma_key_is_reported(palette, records, raw, 29);
    assert(canonical_keys()[30] == "color5"@);
    lemma_key_is_reported(palette, records, raw, 30);
    assert(canonical_keys()[31] == "color6"@);
    lemma_key_is_reported(palette, records, raw, 31);
    assert(canonical_keys()[32] == "color7"@);
    lemma_key_is_reported(palette, records, raw, 32);
    assert(canonical_keys()[33] == "color8"@);
    lemma_key_is_reported(palette, records, raw, 33);
    assert(canonical_keys()[34] == "color9"@);
    lemma_key_is_reported(palette, records, raw, 34);
    assert(canonical_keys()[35] == "color10"@);
    lemma_key_is_reported(palette, records, raw, 35);
    assert(canonical_keys()[36] == "color11"@);
    lemma_key_is_reported(palette, records, raw, 36);
    assert(canonical_keys()[37] == "color12"@);
    lemma_key_is_reported(palette, records, raw, 37);
    assert(canonical_keys()[38] == "color13"@);
    lemma_key_is_reported(palette, records, raw, 38);
    assert(canonical_keys()[39] == "color14"@);
    lemma_key_is_reported(palette, records, raw, 39);
    assert(canonical_keys()[40] == "color15"@);
    lemma_key_is_reported(palette, records, raw, 40);
    assert(canonical_keys()[41] == "cursor"@);
    lemma_key_is_reported(palette, records, raw, 41);
    assert(canonical_keys()[42] == "selection_background"@);
    lemma_key_is_reported(palette, records, raw, 42);
    assert(canonical_keys()[43] == "selection_foreground"@);
    lemma_key_is_reported(palette, records, raw, 43);
}

/// Whether an alias that was reported has the color of its key.
pub open spec fn agrees_with(
    palette: ResolvedPalette,
    records: Map<Seq<char>, Seq<char>>,
    alias: Seq<char>,
    key: Seq<char>,
) -> bool {
    records.contains_key(alias) ==> is_opaque_hex(records[alias]) && palette.colors@[key]@
        == lowered(records[alias])
}

proof fn lemma_no_alias_fault(records: Map<Seq<char>, Seq<char>>, from: int, index: int)
    requires
        0 <= from <= index < COLOR_ALIAS_NAMES@.len(),
        alias_fault(records, from) is None,
    ensures
        ({
            let alias = COLOR_ALIAS_NAMES@[index]@;
            let canonical = COLOR_ALIAS_TARGETS@[index]@;
            records.contains_key(alias) ==> is_opaque_hex(records[alias]) && lowered(records[alias])
                == lowered(records[canonical])
        }),
    decreases index - from,
{
    if from < index {
        lemma_no_alias_fault(records, from + 1, index);
    }
}

/// Short names that were reported beside the long ones agree with them, the appearance
/// is dark or light, and the type of the theme is its appearance.
pub proof fn lemma_short_names_agree(
    palette: ResolvedPalette,
    records: Map<Seq<char>, Seq<char>>,
    raw: Set<Seq<char>>,
)
    requires
        is_palette_of(palette, records, raw),
        records_fault(records) is None,
    ensures
        agrees_with(palette, records, "bg"@, "background"@),
        agrees_with(palette, records, "dark_bg"@, "dark_background"@),
        agrees_with(palette, records, "darker_bg"@, "darker_background"@),
        agrees_with(palette, records, "lighter_bg"@, "lighter_background"@),
        agrees_with(palette, records, "fg"@, "foreground"@),
        agrees_with(palette, records, "dark_fg"@, "dark_foreground"@),
        agrees_with(palette, records, "light_fg"@, "light_foreground"@),
        agrees_with(palette, records, "bright_fg"@, "bright_foreground"@),
        agrees_with(palette, records, "purple"@, "magenta"@),
        agrees_with(palette, records, "bright_purple"@, "bright_magenta"@),
        palette.mode@ == "dark"@ || palette.mode@ == "light"@,
        records.contains_key("mode"@) && palette.mode@ == records["mode"@],
        records.contains_key("theme_type"@) ==> records["theme_type"@] == palette.mode@,
{
    let wanted = canonical_keys().push("mode"@);
    lemma_no_missing_key(wanted, records.dom(), canonical_keys().len() as int);
    lemma_palette_has_every_color(palette, records, raw);
    lemma_no_alias_fault(records, 0, 0);
    assert(COLOR_ALIAS_NAMES@[0]@ == "bg"@);
    assert(COLOR_ALIAS_TARGETS@[0]@ == "background"@);
    lemma_no_alias_fault(records, 0, 1);
    assert(COLOR_ALIAS_NAMES@[1]@ == "dark_bg"@);
    assert(COLOR_ALIAS_TARGETS@[1]@ == "dark_background"@);
    lemma_no_alias_fault(records, 0, 2);
    assert(COLOR_ALIAS_NAMES@[2]@ == "darker_bg"@);
    assert(COLOR_ALIAS_TARGETS@[2]@ == "darker_background"@);
    lemma_no_alias_fault(records, 0, 3);
    assert(COLOR_ALIAS_NAMES@[3]@ == "lighter_bg"@);
    assert(COLOR_ALIAS_TARGETS@[3]@ == "lighter_background"@);
    lemma_no_alias_fault(records, 0, 4);
    assert(COLOR_ALIAS_NAMES@[4]@ == "fg"@);
    assert(COLOR_ALIAS_TARGETS@[4]@ == "foreground"@);
    lemma_no_alias_fault(records, 0, 5);
    assert(COLOR_ALIAS_NAMES@[5]@ == "dark_fg"@);
    assert(COLOR_ALIAS_TARGETS@[5]@ == "dark_foreground"@);
    lemma_no_alias_fault(records, 0, 6);
    assert(COLOR_ALIAS_NAMES@[6]@ == "light_fg"@);
    assert(COLOR_ALIAS_TARGETS@[6]@ == "light_foreground"@);
    lemma_no_alias_fault(records, 0, 7);
    assert(COLOR_ALIAS_NAMES@[7]@ == "bright_fg"@);
    assert(COLOR_ALIAS_TARGETS@[7]@ == "bright_foreground"@);
    lemma_no_alias_fault(records, 0, 8);
    assert(COLOR_ALIAS_NAMES@[8]@ == "purple"@);
    assert(COLOR_ALIAS_TARGETS@[8]@ == "magenta"@);
    lemma_no_alias_fault(records, 0, 9);
    assert(COLOR_ALIAS_NAMES@[9]@ == "bright_purple"@);
    assert(COLOR_ALIAS_TARGETS@[9]@ == "bright_magenta"@);
}

/// The line that sets the key to the value.
pub open spec fn record_line(key: Seq<char>, value: Seq<char>) -> Seq<char> {
    key + seq!['\t'] + value
}

/// What was read is what the lines say: each line sets one key, each key has one line,
/// and no key or value is empty.
pub proof fn lemma_records_are_the_lines(found: Seq<Seq<char>>)
    requires
        tsv_records(found) is Ok,
    ensures
        ({
            let records = tsv_records(found)->Ok_0;
            &&& forall|i: int|
                0 <= i < found.len() ==> exists|key: Seq<char>| #[trigger]
                    records.contains_key(key) && #[trigger] found[i] == record_line(
                        key,
                        records[key],
                    )
            &&& forall|key: Seq<char>| #[trigger]
                records.contains_key(key) ==> key.len() > 0 && records[key].len() > 0 && exists|
                    i: int,
                | 0 <= i < found.len() && #[trigger] found[i] == record_line(key, records[key])
            &&& records.dom().finite() && records.dom().len() == found.len()
        }),
    decreases found.len(),
{
    let records = tsv_records(found)->Ok_0;
    if found.len() > 0 {
        let earlier = found.drop_last();
        let before = tsv_records(earlier)->Ok_0;
        lemma_records_are_the_lines(earlier);
        let last = found[found.len() - 1];
        let parts = split_on(last, '\t');
        lemma_split_joins_back(last, '\t');
        assert(parts.drop_last() =~= seq![parts[0]]);
        reveal_with_fuel(joined, 2);
        assert(last =~= record_line(parts[0], parts[1]));
        assert(records.dom() =~= before.dom().insert(parts[0]));
        assert forall|i: int| 0 <= i < found.len() implies exists|key: Seq<char>| #[trigger]
            records.contains_key(key) && #[trigger] found[i] == record_line(key, records[key]) by {
            if i < earlier.len() {
                assert(earlier[i] == found[i]);
                let key = choose|key: Seq<char>| #[trigger]
                    before.contains_key(key) && earlier[i] == record_line(key, before[key]);
                assert(records.contains_key(key) && records[key] == before[key]);
            } else {
                assert(records.contains_key(parts[0]));
            }
        }
        assert forall|key: Seq<char>| #[trigger] records.contains_key(key) implies key.len() > 0
            && records[key].len() > 0 && exists|i: int|
            0 <= i < found.len() && #[trigger] found[i] == record_line(key, records[key]) by {
            if key == parts[0] {
                assert(found[found.len() - 1] == record_line(key, records[key]));
            } else {
                assert(before.contains_key(key));
                let at = choose|i: int|
                    0 <= i < earlier.len() && #[trigger] earlier[i] == record_line(
                        key,
                        before[key],
                    );
                assert(found[at] == record_line(key, records[key]));
            }
        }
    } else {
        assert(records.dom() =~= Set::<Seq<char>>::empty());
    }
}

/// Lines that each set another key to a value are read, whatever their order.
pub proof fn lemma_lines_are_read(
    found: Seq<Seq<char>>,
    keys: Seq<Seq<char>>,
    values: Seq<Seq<char>>,
)
    requires
        keys.len() == found.len(),
        values.len() == found.len(),
        forall|i: int|
            0 <= i < found.len() ==> #[trigger] found[i] == record_line(keys[i], values[i])
                && keys[i].len() > 0 && values[i].len() > 0 && !holds_char(keys[i], '\t') && !holds_char(
                values[i],
                '\t',
            ),
        forall|i: int, j: int| 0 <= i < j < keys.len() ==> #[trigger] keys[i] != #[trigger] keys[j],
    ensures
        tsv_records(found) is Ok,
        forall|i: int|
            0 <= i < keys.len() ==> tsv_records(found)->Ok_0.contains_key(#[trigger] keys[i])
                && tsv_records(found)->Ok_0[keys[i]] == values[i],
        forall|key: Seq<char>| #[trigger]
            tsv_records(found)->Ok_0.contains_key(key) ==> keys.contains(key),
    decreases found.len(),
{
    if found.len() > 0 {
        let last = found.len() - 1;
        let earlier = found.drop_last();
        assert forall|i: int| 0 <= i < earlier.len() implies #[trigger] earlier[i] == record_line(
            keys.drop_last()[i],
            values.drop_last()[i],
        ) && keys.drop_last()[i].len() > 0 && values.drop_last()[i].len() > 0 && !holds_char(
            keys.drop_last()[i],
            '\t',
        ) && !holds_char(values.drop_last()[i], '\t') by {
            assert(earlier[i] == found[i]);
        }
        assert forall|i: int, j: int|
            0 <= i < j < keys.drop_last().len() implies #[trigger] keys.drop_last()[i]
            != #[trigger] keys.drop_last()[j] by {
            assert(keys[i] != keys[j]);
        }
        lemma_lines_are_read(earlier, keys.drop_last(), values.drop_last());
        assert(found[last] == record_line(keys[last], values[last]));
        lemma_split_pair(keys[last], '\t', values[last]);
        let before = tsv_records(earlier)->Ok_0;
        if before.contains_key(keys[last]) {
            let at = choose|i: int|
                0 <= i < keys.drop_last().len() && keys.drop_last()[i] == keys[last];
            assert(keys[at] != keys[last]);
        }
        let records = tsv_records(found)->Ok_0;
        assert(records == before.insert(keys[last], values[last]));
        assert forall|i: int| 0 <= i < keys.len() implies records.contains_key(#[trigger] keys[i])
            && records[keys[i]] == values[i] by {
            if i < last {
                assert(keys.drop_last()[i] == keys[i]);
                assert(keys[i] != keys[last]);
            }
        }
        assert forall|key: Seq<char>| #[trigger] records.contains_key(key) implies keys.contains(
            key,
        ) by {
            if key == keys[last] {
                assert(keys[last] == key);
            } else {
                assert(before.contains_key(key));
                let at = choose|i: int|
                    0 <= i < keys.drop_last().len() && keys.drop_last()[i] == key;
                assert(keys[at] == key);
            }
        }
    }
}

proof fn lemma_all_present(keys: Seq<Seq<char>>, present: Set<Seq<char>>)
    requires
        forall|i: int| 0 <= i < keys.len() ==> present.contains(#[trigger] keys[i]),
    ensures
        missing_keys(keys, present).len() == 0,
    decreases keys.len(),
{
    if keys.len() > 0 {
        assert forall|i: int| 0 <= i < keys.drop_last().len() implies present.contains(
            #[trigger] keys.drop_last()[i],
        ) by {
            assert(keys.drop_last()[i] == keys[i]);
        }
        lemma_all_present(keys.drop_last(), present);
        assert(keys.last() == keys[keys.len() - 1]);
    }
}

proof fn lemma_all_opaque(keys: Seq<Seq<char>>, colors: Map<Seq<char>, Seq<char>>, from: int)
    requires
        0 <= from <= keys.len(),
        forall|i: int| from <= i < keys.len() ==> is_opaque_hex(colors[#[trigger] keys[i]]),
    ensures
        color_fault(keys, colors, from) is None,
    decreases keys.len() - from,
{
    if from < keys.len() {
        assert(is_opaque_hex(colors[keys[from]]));
        lemma_all_opaque(keys, colors, from + 1);
    }
}

proof fn lemma_all_agree(records: Map<Seq<char>, Seq<char>>, from: int)
    requires
        0 <= from <= COLOR_ALIAS_NAMES@.len(),
        forall|i: int| from <= i < COLOR_ALIAS_NAMES@.len() ==> #[trigger] is_true_alias(records, i),
    ensures
        alias_fault(records, from) is None,
    decreases COLOR_ALIAS_NAMES@.len() - from,
{
    if from < COLOR_ALIAS_NAMES@.len() {
        assert(is_true_alias(records, from));
        lemma_all_agree(records, from + 1);
    }
}

/// Whether the short name at `index`, if it was reported, has the color of the long one.
pub open spec fn is_true_alias(records: Map<Seq<char>, Seq<char>>, index: int) -> bool {
    let alias = COLOR_ALIAS_NAMES@[index]@;
    records.contains_key(alias) ==> is_opaque_hex(records[alias]) && lowered(records[alias])
        == lowered(records[COLOR_ALIAS_TARGETS@[index]@])
}

/// Records are accepted where every canonical color is reported without transparency, the mode
/// is dark or light, short names agree with the long ones and the type of the theme with its
/// mode.
pub proof fn lemma_complete_records_are_accepted(records: Map<Seq<char>, Seq<char>>)
    requires
        forall|i: int|
            0 <= i < canonical_keys().len() ==> records.contains_key(
                #[trigger] canonical_keys()[i],
            ) && is_opaque_hex(records[canonical_keys()[i]]),
        records.contains_key("mode"@),
        records["mode"@] == "dark"@ || records["mode"@] == "light"@,
        forall|i: int| 0 <= i < COLOR_ALIAS_NAMES@.len() ==> #[trigger] is_true_alias(records, i),
        records.contains_key("theme_type"@) ==> records["theme_type"@] == records["mode"@],
    ensures
        records_fault(records) is None,
{
    let wanted = canonical_keys().push("mode"@);
    assert forall|i: int| 0 <= i < wanted.len() implies records.dom().contains(
        #[trigger] wanted[i],
    ) by {
        if i < canonical_keys().len() {
            assert(wanted[i] == canonical_keys()[i]);
        }
    }
    lemma_all_present(wanted, records.dom());
    lemma_all_opaque(canonical_keys(), records, 0);
    lemma_all_agree(records, 0);
}

/// A palette is valid where its mode is known and it has a color without transparency and a
/// provenance for every canonical key.
pub proof fn lemma_complete_palette_is_valid(palette: ResolvedPalette)
    requires
        palette.mode@ == "dark"@ || palette.mode@ == "light"@,
        forall|i: int|
            0 <= i < canonical_keys().len() ==> palette.colors@.contains_key(
                #[trigger] canonical_keys()[i],
            ) && is_opaque_hex(palette.colors@[canonical_keys()[i]]@)
                && palette.provenance@.contains_key(canonical_keys()[i]),
    ensures
        palette.fault() is None,
{
    let keys = canonical_keys();
    let colors = text_values(palette.colors@);
    assert forall|i: int| 0 <= i < keys.len() implies colors.dom().contains(#[trigger] keys[i])
        && palette.provenance@.dom().contains(keys[i]) && is_opaque_hex(colors[keys[i]]) by {
        assert(palette.colors@.contains_key(keys[i]));
        assert(colors[keys[i]] == palette.colors@[keys[i]]@);
    }
    lemma_all_present(keys, colors.dom());
    lemma_all_present(keys, palette.provenance@.dom());
    lemma_all_opaque(keys, colors, 0);
}

} // verus!
