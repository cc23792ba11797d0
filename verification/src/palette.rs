//! Reads the palette that the color resolver reports.

pub mod laws;

use crate::color::{
    is_opaque_hex, lemma_opaque_hex_canonical, normalize_hex, opaque_hex_message, palette_key_label,
};
use crate::constants::{CANONICAL_COLOR_KEYS, COLOR_ALIAS_NAMES, COLOR_ALIAS_TARGETS};
use crate::map::TextMap;
use crate::text::{
    debug_text, decimal, decimal_of, join, joined, lines, lines_of, lowered, quoted, same_text,
    slice_views, split, split_on, views,
};
use crate::{Error, Result};
use vstd::prelude::*;

verus! {

/// How a resolved color came to be.
#[derive(Clone, Copy, Debug, PartialEq, Eq, Structural)]
pub enum Provenance {
    Direct,
    Alias,
    Derived,
}

/// A palette with every canonical color and where each one came from.
#[derive(Debug)]
pub struct ResolvedPalette {
    pub mode: String,
    pub colors: TextMap<String>,
    pub provenance: TextMap<Provenance>,
}

/// The texts under the keys of a map of strings.
pub open spec fn text_values(map: Map<Seq<char>, String>) -> Map<Seq<char>, Seq<char>> {
    map.map_values(|text: String| text@)
}

/// The canonical palette keys in their fixed order.
pub open spec fn canonical_keys() -> Seq<Seq<char>> {
    slice_views(CANONICAL_COLOR_KEYS@)
}

/// The keys that `present` lacks, in order.
pub open spec fn missing_keys(keys: Seq<Seq<char>>, present: Set<Seq<char>>) -> Seq<Seq<char>>
    decreases keys.len(),
{
    if keys.len() == 0 {
        Seq::empty()
    } else {
        let earlier = missing_keys(keys.drop_last(), present);
        if present.contains(keys.last()) {
            earlier
        } else {
            earlier.push(keys.last())
        }
    }
}

/// The message about the first key from `from` on whose color is no opaque hex
/// color.
pub open spec fn color_fault(
    keys: Seq<Seq<char>>,
    colors: Map<Seq<char>, Seq<char>>,
    from: int,
) -> Option<Seq<char>>
    decreases keys.len() - from,
{
    if from < 0 || from >= keys.len() {
        None
    } else if !is_opaque_hex(colors[keys[from]]) {
        Some(opaque_hex_message(palette_key_label(keys[from]), colors[keys[from]]))
    } else {
        color_fault(keys, colors, from + 1)
    }
}

/// The message about the first thing that is wrong with a palette's entries for
/// `keys`.
pub open spec fn key_fault(
    keys: Seq<Seq<char>>,
    colors: Map<Seq<char>, Seq<char>>,
    provenance: Set<Seq<char>>,
) -> Option<Seq<char>> {
    let without_color = missing_keys(keys, colors.dom());
    let without_provenance = missing_keys(keys, provenance);
    if without_color.len() > 0 {
        Some("resolved palette omitted canonical keys: "@ + joined(without_color, ", "@))
    } else if without_provenance.len() > 0 {
        Some("resolved palette omitted provenance: "@ + joined(without_provenance, ", "@))
    } else {
        color_fault(keys, colors, 0)
    }
}

/// Whether `mode` is one of the two appearances.
pub open spec fn is_mode(mode: Seq<char>) -> bool {
    mode == "dark"@ || mode == "light"@
}

/// The message for any other mode.
pub open spec fn mode_message(mode: Seq<char>) -> Seq<char> {
    "resolved mode must be 'dark' or 'light', got "@ + debug_text(mode)
}

fn mode_error(mode: &str) -> (error: Error)
    ensures
        error.is_invalid(mode_message(mode@)),
{
    let mut message = "resolved mode must be 'dark' or 'light', got ".to_owned();
    message.append(quoted(mode).as_str());
    Error::invalid(message)
}

fn known_mode(mode: &str) -> (known: bool)
    ensures
        known == is_mode(mode@),
{
    same_text(mode, "dark") || same_text(mode, "light")
}

proof fn lemma_none_missing(keys: Seq<Seq<char>>, present: Set<Seq<char>>)
    ensures
        missing_keys(keys, present).len() == 0 <==> forall|i: int|
            0 <= i < keys.len() ==> present.contains(#[trigger] keys[i]),
    decreases keys.len(),
{
    if keys.len() > 0 {
        let earlier = keys.drop_last();
        lemma_none_missing(earlier, present);
        if forall|i: int| 0 <= i < keys.len() ==> present.contains(#[trigger] keys[i]) {
            assert forall|i: int| 0 <= i < earlier.len() implies present.contains(
                #[trigger] earlier[i],
            ) by {
                assert(earlier[i] == keys[i]);
            }
            assert(present.contains(keys[keys.len() - 1]));
        }
        if missing_keys(keys, present).len() == 0 {
            assert forall|i: int| 0 <= i < keys.len() implies present.contains(
                #[trigger] keys[i],
            ) by {
                if i < earlier.len() {
                    assert(earlier[i] == keys[i]);
                }
            }
        }
    }
}

fn missing_from<'a, V>(keys: &[&'a str], map: &TextMap<V>) -> (missing: Vec<&'a str>)
    ensures
        slice_views(missing@) == missing_keys(slice_views(keys@), map@.dom()),
{
    let ghost all = slice_views(keys@);
    let mut missing: Vec<&'a str> = Vec::new();
    let mut index: usize = 0;
    assert(slice_views(missing@) =~= Seq::<Seq<char>>::empty());
    while index < keys.len()
        invariant
            all == slice_views(keys@),
            index <= keys@.len(),
            slice_views(missing@) == missing_keys(all.take(index as int), map@.dom()),
        decreases keys@.len() - index,
    {
        assert(all.take(index as int + 1).drop_last() =~= all.take(index as int));
        assert(all[index as int] == keys@[index as int]@);
        if !map.contains_key(keys[index]) {
            let ghost before = slice_views(missing@);
            missing.push(keys[index]);
            assert(slice_views(missing@) =~= before.push(keys@[index as int]@));
        }
        index += 1;
    }
    assert(all.take(index as int) =~= all);
    missing
}

impl ResolvedPalette {
    /// The message about the first thing that is wrong with this palette.
    pub open spec fn fault(&self) -> Option<Seq<char>> {
        if !is_mode(self.mode@) {
            Some(mode_message(self.mode@))
        } else {
            self.fault_in(canonical_keys())
        }
    }

    pub open spec fn fault_in(&self, keys: Seq<Seq<char>>) -> Option<Seq<char>> {
        key_fault(keys, text_values(self.colors@), self.provenance@.dom())
    }

    /// Accepts a palette with a known mode and, for every canonical key, an opaque
    /// color and its provenance.
    pub fn validate(&self) -> (result: Result<()>)
        ensures
            result is Ok <==> self.fault() is None,
            result matches Err(error) ==> error.is_invalid(self.fault()->0),
    {
        if !known_mode(self.mode.as_str()) {
            return Err(mode_error(self.mode.as_str()));
        }
        self.validate_keys(&CANONICAL_COLOR_KEYS)
    }

    /// Accepts a palette with an opaque color and its provenance for every key.
    pub fn validate_keys(&self, keys: &[&str]) -> (result: Result<()>)
        ensures
            result is Ok <==> self.fault_in(slice_views(keys@)) is None,
            result matches Err(error) ==> error.is_invalid(self.fault_in(slice_views(keys@))->0),
    {
        let ghost all = slice_views(keys@);
        let ghost colors = text_values(self.colors@);
        assert(colors.dom() =~= self.colors@.dom());
        let without_color = missing_from(keys, &self.colors);
        assert(slice_views(without_color@).len() == without_color@.len());
        if without_color.len() > 0 {
            let mut message = "resolved palette omitted canonical keys: ".to_owned();
            message.append(join(&without_color, ", ").as_str());
            return Err(Error::invalid(message));
        }
        let without_provenance = missing_from(keys, &self.provenance);
        assert(slice_views(without_provenance@).len() == without_provenance@.len());
        if without_provenance.len() > 0 {
            let mut message = "resolved palette omitted provenance: ".to_owned();
            message.append(join(&without_provenance, ", ").as_str());
            return Err(Error::invalid(message));
        }
        proof {
            lemma_none_missing(all, colors.dom());
        }
        let mut index: usize = 0;
        while index < keys.len()
            invariant
                all == slice_views(keys@),
                colors == text_values(self.colors@),
                colors.dom() == self.colors@.dom(),
                index <= keys@.len(),
                forall|i: int| 0 <= i < all.len() ==> colors.dom().contains(#[trigger] all[i]),
                self.fault_in(all) == color_fault(all, colors, index as int),
            decreases keys@.len() - index,
        {
            assert(all[index as int] == keys@[index as int]@);
            assert(colors.dom().contains(all[index as int]));
            if let Some(value) = self.colors.get(keys[index]) {
                assert(colors[all[index as int]] == value@);
                match normalize_hex(value.as_str(), keys[index]) {
                    Ok(_) => {},
                    Err(error) => {
                        return Err(error);
                    },
                }
            }
            index += 1;
        }
        Ok(())
    }
}

/// What the resolver's tab-separated lines hold: a map, or the message about the
/// first line that is no new pair of a key and a value.
pub open spec fn tsv_records(found: Seq<Seq<char>>) -> core::result::Result<
    Map<Seq<char>, Seq<char>>,
    Seq<char>,
>
    decreases found.len(),
{
    if found.len() == 0 {
        Ok(Map::empty())
    } else {
        match tsv_records(found.drop_last()) {
            Err(message) => Err(message),
            Ok(records) => {
                let parts = split_on(found.last(), '\t');
                if parts.len() != 2 {
                    Err(
                        "resolver line "@ + decimal_of(found.len()) + " is not key<TAB>value"@,
                    )
                } else if parts[0].len() == 0 || parts[1].len() == 0 {
                    Err(
                        "resolver line "@ + decimal_of(found.len())
                            + " has an empty key or value"@,
                    )
                } else if records.contains_key(parts[0]) {
                    Err("resolver emitted duplicate key "@ + debug_text(parts[0]))
                } else {
                    Ok(records.insert(parts[0], parts[1]))
                }
            },
        }
    }
}

/// A failing prefix of lines fails the whole with the same message.
proof fn lemma_tsv_prefix(found: Seq<Seq<char>>, end: int)
    requires
        0 <= end <= found.len(),
        tsv_records(found.take(end)) is Err,
    ensures
        tsv_records(found) == tsv_records(found.take(end)),
    decreases found.len() - end,
{
    if end < found.len() {
        assert(found.take(end + 1).drop_last() =~= found.take(end));
        lemma_tsv_prefix(found, end + 1);
    } else {
        assert(found.take(end) =~= found);
    }
}

/// Reads lines of a key, a tab and a value, each key once.
pub fn parse_tsv(output: &str) -> (result: Result<TextMap<String>>)
    ensures
        result is Ok <==> tsv_records(lines_of(output@)) is Ok,
        result matches Ok(records) ==> text_values(records@) == tsv_records(lines_of(output@))->Ok_0,
        result matches Err(error) ==> error.is_invalid(tsv_records(lines_of(output@))->Err_0),
{
    let found = lines(output);
    let ghost all = lines_of(output@);
    let mut records: TextMap<String> = TextMap::new();
    let mut index: usize = 0;
    assert(text_values(records@) =~= Map::<Seq<char>, Seq<char>>::empty());
    assert(all.take(0) =~= Seq::<Seq<char>>::empty());
    while index < found.len()
        invariant
            all == views(found@),
            all == lines_of(output@),
            index <= found@.len(),
            tsv_records(all.take(index as int)) == Ok::<Map<Seq<char>, Seq<char>>, Seq<char>>(
                text_values(records@),
            ),
        decreases found@.len() - index,
    {
        let ghost prefix = all.take(index as int + 1);
        assert(prefix.drop_last() =~= all.take(index as int));
        assert(prefix.last() == found@[index as int]@);
        let mut parts = split(found[index].as_str(), '\t');
        let ghost pieces = split_on(found@[index as int]@, '\t');
        assert(pieces.len() == parts@.len());
        if parts.len() != 2 {
            let mut message = "resolver line ".to_owned();
            message.append(decimal(index + 1).as_str());
            message.append(" is not key<TAB>value");
            proof {
                lemma_tsv_prefix(all, index as int + 1);
            }
            return Err(Error::invalid(message));
        }
        assert(pieces[0] == parts@[0]@ && pieces[1] == parts@[1]@);
        if parts[0].as_str().is_empty() || parts[1].as_str().is_empty() {
            let mut message = "resolver line ".to_owned();
            message.append(decimal(index + 1).as_str());
            message.append(" has an empty key or value");
            proof {
                lemma_tsv_prefix(all, index as int + 1);
            }
            return Err(Error::invalid(message));
        }
        assert(text_values(records@).dom() =~= records@.dom());
        if records.contains_key(parts[0].as_str()) {
            let mut message = "resolver emitted duplicate key ".to_owned();
            message.append(quoted(parts[0].as_str()).as_str());
            proof {
                lemma_tsv_prefix(all, index as int + 1);
            }
            return Err(Error::invalid(message));
        }
        let ghost before = records@;
        let value = parts.remove(1);
        let key = parts.remove(0);
        assert(key@ == pieces[0] && value@ == pieces[1]);
        records.insert(key, value);
        assert(text_values(records@) =~= text_values(before).insert(pieces[0], pieces[1]));
        index += 1;
    }
    assert(all.take(index as int) =~= all);
    Ok(records)
}

/// The other names under which a palette file may set a canonical color.
pub open spec fn alias_sources(key: Seq<char>) -> Seq<Seq<char>> {
    if key == "red"@ {
        seq!["color1"@]
    } else if key == "green"@ {
        seq!["color2"@]
    } else if key == "yellow"@ {
        seq!["color3"@]
    } else if key == "blue"@ {
        seq!["color4"@]
    } else if key == "magenta"@ {
        seq!["purple"@, "color5"@]
    } else if key == "cyan"@ {
        seq!["color6"@]
    } else {
        Seq::empty()
    }
}

/// Where the color of `key` comes from, given the keys the palette file sets.
pub open spec fn provenance_of(raw: Set<Seq<char>>, key: Seq<char>) -> Provenance {
    if raw.contains(key) {
        Provenance::Direct
    } else if exists|i: int|
        0 <= i < alias_sources(key).len() && raw.contains(#[trigger] alias_sources(key)[i]) {
        Provenance::Alias
    } else {
        Provenance::Derived
    }
}

fn provenance_for(raw: &TextMap<String>, key: &str) -> (provenance: Provenance)
    ensures
        provenance == provenance_of(raw@.dom(), key@),
{
    if raw.contains_key(key) {
        return Provenance::Direct;
    }
    let ghost sources = alias_sources(key@);
    let aliased = if same_text(key, "red") {
        assert(sources[0] == "color1"@);
        raw.contains_key("color1")
    } else if same_text(key, "green") {
        assert(sources[0] == "color2"@);
        raw.contains_key("color2")
    } else if same_text(key, "yellow") {
        assert(sources[0] == "color3"@);
        raw.contains_key("color3")
    } else if same_text(key, "blue") {
        assert(sources[0] == "color4"@);
        raw.contains_key("color4")
    } else if same_text(key, "magenta") {
        assert(sources[0] == "purple"@ && sources[1] == "color5"@);
        raw.contains_key("purple") || raw.contains_key("color5")
    } else if same_text(key, "cyan") {
        assert(sources[0] == "color6"@);
        raw.contains_key("color6")
    } else {
        false
    };
    if aliased {
        Provenance::Alias
    } else {
        Provenance::Derived
    }
}

/// The message about the first alias from `from` on that is no opaque color or
/// disagrees with its canonical color.
pub open spec fn alias_fault(records: Map<Seq<char>, Seq<char>>, from: int) -> Option<Seq<char>>
    decreases COLOR_ALIAS_NAMES@.len() - from,
{
    if from < 0 || from >= COLOR_ALIAS_NAMES@.len() {
        None
    } else {
        let alias = COLOR_ALIAS_NAMES@[from]@;
        let canonical = COLOR_ALIAS_TARGETS@[from]@;
        if records.contains_key(alias) && !is_opaque_hex(records[alias]) {
            Some(opaque_hex_message(palette_key_label(alias), records[alias]))
        } else if records.contains_key(alias) && lowered(records[alias]) != lowered(
            records[canonical],
        ) {
            Some(
                "resolver alias "@ + debug_text(alias) + " disagrees with "@ + debug_text(canonical),
            )
        } else {
            alias_fault(records, from + 1)
        }
    }
}

/// The message about the first thing that is wrong with the resolver's records.
pub open spec fn records_fault(records: Map<Seq<char>, Seq<char>>) -> Option<Seq<char>> {
    let missing = missing_keys(canonical_keys().push("mode"@), records.dom());
    let mode = records["mode"@];
    let colors = color_fault(canonical_keys(), records, 0);
    let aliases = alias_fault(records, 0);
    if missing.len() > 0 {
        Some("resolver omitted canonical keys: "@ + joined(missing, ", "@))
    } else if !is_mode(mode) {
        Some(mode_message(mode))
    } else if colors is Some {
        colors
    } else if aliases is Some {
        aliases
    } else if records.contains_key("theme_type"@) && records["theme_type"@] != mode {
        Some("resolver alias 'theme_type' disagrees with 'mode'"@)
    } else {
        None
    }
}

/// The canonical colors of the records, in small letters.
pub open spec fn canonical_colors(records: Map<Seq<char>, Seq<char>>, keys: Seq<Seq<char>>) -> Map<
    Seq<char>,
    Seq<char>,
> {
    Map::new(|key: Seq<char>| keys.contains(key), |key: Seq<char>| lowered(records[key]))
}

/// The provenance of each key.
pub open spec fn canonical_provenance(raw: Set<Seq<char>>, keys: Seq<Seq<char>>) -> Map<
    Seq<char>,
    Provenance,
> {
    Map::new(|key: Seq<char>| keys.contains(key), |key: Seq<char>| provenance_of(raw, key))
}

/// Whether the palette is the one that the resolver's records and the keys that the
/// palette file sets make.
pub open spec fn is_palette_of(
    palette: ResolvedPalette,
    records: Map<Seq<char>, Seq<char>>,
    raw: Set<Seq<char>>,
) -> bool {
    &&& palette.mode@ == records["mode"@]
    &&& text_values(palette.colors@) == canonical_colors(records, canonical_keys())
    &&& palette.provenance@ == canonical_provenance(raw, canonical_keys())
}

proof fn lemma_alias_targets_are_canonical(index: int)
    requires
        0 <= index < COLOR_ALIAS_TARGETS@.len(),
    ensures
        canonical_keys().contains(COLOR_ALIAS_TARGETS@[index]@),
{
    let keys = canonical_keys();
    assert(keys[3] == "background"@);
    assert(keys[4] == "dark_background"@);
    assert(keys[5] == "darker_background"@);
    assert(keys[6] == "lighter_background"@);
    assert(keys[7] == "foreground"@);
    assert(keys[8] == "dark_foreground"@);
    assert(keys[9] == "light_foreground"@);
    assert(keys[10] == "bright_foreground"@);
    assert(keys[17] == "magenta"@);
    assert(keys[24] == "bright_magenta"@);
}

proof fn lemma_color_fault_none(
    keys: Seq<Seq<char>>,
    colors: Map<Seq<char>, Seq<char>>,
    from: int,
)
    requires
        0 <= from <= keys.len(),
    ensures
        color_fault(keys, colors, from) is None <==> forall|i: int|
            from <= i < keys.len() ==> is_opaque_hex(colors[#[trigger] keys[i]]),
    decreases keys.len() - from,
{
    if from < keys.len() {
        lemma_color_fault_none(keys, colors, from + 1);
        if !is_opaque_hex(colors[keys[from]]) {
            assert(!(forall|i: int|
                from <= i < keys.len() ==> is_opaque_hex(colors[#[trigger] keys[i]])));
        }
    }
}

proof fn lemma_take_contains(keys: Seq<Seq<char>>, end: int, key: Seq<char>)
    requires
        0 <= end < keys.len(),
    ensures
        keys.take(end + 1).contains(key) <==> keys.take(end).contains(key) || key == keys[end],
{
    let longer = keys.take(end + 1);
    let shorter = keys.take(end);
    if longer.contains(key) {
        let at = choose|i: int| 0 <= i < longer.len() && longer[i] == key;
        if at < end {
            assert(shorter[at] == key);
        }
    }
    if shorter.contains(key) {
        let at = choose|i: int| 0 <= i < shorter.len() && shorter[i] == key;
        assert(longer[at] == key);
    }
    assert(longer[end] == keys[end]);
}

/// Builds the palette from the resolver's records and the keys that the palette
/// file itself sets.
pub fn parse_resolved_records(records: TextMap<String>, raw: TextMap<String>) -> (result: Result<
    ResolvedPalette,
>)
    ensures
        result is Ok <==> records_fault(text_values(records@)) is None,
        result matches Err(error) ==> error.is_invalid(records_fault(text_values(records@))->0),
        result matches Ok(palette) ==> {
            &&& palette.mode@ == records@["mode"@]@
            &&& text_values(palette.colors@) == canonical_colors(
                text_values(records@),
                canonical_keys(),
            )
            &&& palette.provenance@ == canonical_provenance(raw@.dom(), canonical_keys())
            &&& is_palette_of(palette, text_values(records@), raw@.dom())
            &&& palette.fault() is None
        },
{
    let ghost given = text_values(records@);
    let ghost keys = canonical_keys();
    assert(given.dom() =~= records@.dom());
    let mut missing = missing_from(&CANONICAL_COLOR_KEYS, &records);
    let ghost wanted = keys.push("mode"@);
    assert(wanted.drop_last() =~= keys);
    if !records.contains_key("mode") {
        let ghost before = slice_views(missing@);
        missing.push("mode");
        assert(slice_views(missing@) =~= before.push("mode"@));
    }
    assert(slice_views(missing@) == missing_keys(wanted, given.dom()));
    assert(slice_views(missing@).len() == missing@.len());
    if missing.len() > 0 {
        let mut message = "resolver omitted canonical keys: ".to_owned();
        message.append(join(&missing, ", ").as_str());
        return Err(Error::invalid(message));
    }
    proof {
        lemma_none_missing(wanted, given.dom());
        assert(given.dom().contains(wanted[keys.len() as int]));
        assert forall|i: int| 0 <= i < keys.len() implies given.contains_key(#[trigger] keys[i]) by {
            assert(given.dom().contains(wanted[i]));
        }
    }
    let mode = match records.get("mode") {
        Some(mode) => mode.clone(),
        None => String::new(),
    };
    if !known_mode(mode.as_str()) {
        return Err(mode_error(mode.as_str()));
    }
    let mut colors: TextMap<String> = TextMap::new();
    let mut index: usize = 0;
    assert(text_values(colors@) =~= canonical_colors(given, keys.take(0)));
    while index < CANONICAL_COLOR_KEYS.len()
        invariant
            keys == canonical_keys(),
            keys.len() == CANONICAL_COLOR_KEYS@.len(),
            given == text_values(records@),
            given.dom() == records@.dom(),
            index <= keys.len(),
            forall|i: int| 0 <= i < keys.len() ==> given.contains_key(#[trigger] keys[i]),
            missing_keys(keys.push("mode"@), given.dom()).len() == 0,
            is_mode(given["mode"@]),
            color_fault(keys, given, 0) == color_fault(keys, given, index as int),
            text_values(colors@) == canonical_colors(given, keys.take(index as int)),
        decreases keys.len() - index,
    {
        let key = CANONICAL_COLOR_KEYS[index];
        assert(key@ == keys[index as int]);
        assert(given.contains_key(keys[index as int]));
        if let Some(value) = records.get(key) {
            assert(given[key@] == value@);
            match normalize_hex(value.as_str(), key) {
                Ok(color) => {
                    let ghost before = colors@;
                    colors.insert(key.to_owned(), color);
                    assert(text_values(colors@) =~= canonical_colors(
                        given,
                        keys.take(index as int + 1),
                    )) by {
                        assert forall|other: Seq<char>| #[trigger]
                            keys.take(index as int + 1).contains(other) <==> keys.take(
                            index as int,
                        ).contains(other) || other == key@ by {
                            lemma_take_contains(keys, index as int, other);
                        }
                        assert(text_values(colors@) =~= text_values(before).insert(
                            key@,
                            lowered(given[key@]),
                        ));
                    }
                },
                Err(error) => {
                    return Err(error);
                },
            }
        }
        index += 1;
    }
    assert(keys.take(index as int) =~= keys);
    let mut alias: usize = 0;
    while alias < COLOR_ALIAS_NAMES.len()
        invariant
            keys == canonical_keys(),
            given == text_values(records@),
            given.dom() == records@.dom(),
            alias <= COLOR_ALIAS_NAMES@.len(),
            forall|i: int| 0 <= i < keys.len() ==> given.contains_key(#[trigger] keys[i]),
            missing_keys(keys.push("mode"@), given.dom()).len() == 0,
            is_mode(given["mode"@]),
            color_fault(keys, given, 0) is None,
            text_values(colors@) == canonical_colors(given, keys),
            alias_fault(given, 0) == alias_fault(given, alias as int),
        decreases COLOR_ALIAS_NAMES@.len() - alias,
    {
        let name = COLOR_ALIAS_NAMES[alias];
        let canonical = COLOR_ALIAS_TARGETS[alias];
        if let Some(value) = records.get(name) {
            assert(given[name@] == value@);
            match normalize_hex(value.as_str(), name) {
                Ok(color) => {
                    proof {
                        lemma_alias_targets_are_canonical(alias as int);
                        assert(canonical_colors(given, keys).contains_key(canonical@));
                        assert(text_values(colors@).dom() =~= colors@.dom());
                    }
                    if let Some(expected) = colors.get(canonical) {
                        assert(text_values(colors@)[canonical@] == expected@);
                        if !same_text(color.as_str(), expected.as_str()) {
                            let mut message = "resolver alias ".to_owned();
                            message.append(quoted(name).as_str());
                            message.append(" disagrees with ");
                            message.append(quoted(canonical).as_str());
                            return Err(Error::invalid(message));
                        }
                    }
                },
                Err(error) => {
                    return Err(error);
                },
            }
        }
        alias += 1;
    }
    if let Some(appearance) = records.get("theme_type") {
        assert(given["theme_type"@] == appearance@);
        if !same_text(appearance.as_str(), mode.as_str()) {
            return Err(
                Error::invalid("resolver alias 'theme_type' disagrees with 'mode'".to_owned()),
            );
        }
    }
    let mut provenance: TextMap<Provenance> = TextMap::new();
    let mut at: usize = 0;
    assert(provenance@ =~= canonical_provenance(raw@.dom(), keys.take(0)));
    while at < CANONICAL_COLOR_KEYS.len()
        invariant
            keys == canonical_keys(),
            keys.len() == CANONICAL_COLOR_KEYS@.len(),
            at <= keys.len(),
            provenance@ == canonical_provenance(raw@.dom(), keys.take(at as int)),
        decreases keys.len() - at,
    {
        let key = CANONICAL_COLOR_KEYS[at];
        assert(key@ == keys[at as int]);
        let ghost before = provenance@;
        provenance.insert(key.to_owned(), provenance_for(&raw, key));
        assert(provenance@ =~= canonical_provenance(raw@.dom(), keys.take(at as int + 1))) by {
            assert forall|other: Seq<char>| #[trigger]
                keys.take(at as int + 1).contains(other) <==> keys.take(at as int).contains(other)
                    || other == key@ by {
                lemma_take_contains(keys, at as int, other);
            }
        }
        at += 1;
    }
    assert(keys.take(at as int) =~= keys);
    let palette = ResolvedPalette { mode, colors, provenance };
    proof {
        let emitted = text_values(palette.colors@);
        assert forall|i: int| 0 <= i < keys.len() implies emitted.dom().contains(#[trigger] keys[i])
            && palette.provenance@.dom().contains(keys[i]) && is_opaque_hex(emitted[keys[i]]) by {
            assert(keys.contains(keys[i]));
            lemma_color_fault_none(keys, given, 0);
            lemma_opaque_hex_canonical(given[keys[i]]);
        }
        lemma_none_missing(keys, emitted.dom());
        lemma_none_missing(keys, palette.provenance@.dom());
        lemma_color_fault_none(keys, emitted, 0);
    }
    Ok(palette)
}

/// Builds the palette from the two listings that the resolver prints: the
/// resolved colors and the keys that the palette file itself sets.
pub fn parse_resolver_output(resolved: &str, raw: &str) -> (result: Result<ResolvedPalette>)
    ensures
        result is Ok <==> {
            &&& tsv_records(lines_of(resolved@)) is Ok
            &&& tsv_records(lines_of(raw@)) is Ok
            &&& records_fault(tsv_records(lines_of(resolved@))->Ok_0) is None
        },
        result matches Ok(palette) ==> {
            let records = tsv_records(lines_of(resolved@))->Ok_0;
            &&& palette.mode@ == records["mode"@]
            &&& text_values(palette.colors@) == canonical_colors(records, canonical_keys())
            &&& palette.provenance@ == canonical_provenance(
                tsv_records(lines_of(raw@))->Ok_0.dom(),
                canonical_keys(),
            )
            &&& is_palette_of(palette, records, tsv_records(lines_of(raw@))->Ok_0.dom())
            &&& palette.fault() is None
        },
        result matches Err(error) ==> error.is_invalid(
            match (tsv_records(lines_of(resolved@)), tsv_records(lines_of(raw@))) {
                (Err(message), _) => message,
                (_, Err(message)) => message,
                (Ok(records), _) => records_fault(records)->0,
            },
        ),
{
    let records = match parse_tsv(resolved) {
        Ok(records) => records,
        Err(error) => {
            return Err(error);
        },
    };
    let set = match parse_tsv(raw) {
        Ok(set) => set,
        Err(error) => {
            return Err(error);
        },
    };
    assert(text_values(set@).dom() =~= set@.dom());
    proof {
        let ghost given = text_values(records@);
        if records_fault(given) is None {
            let wanted = canonical_keys().push("mode"@);
            lemma_none_missing(wanted, given.dom());
            assert(given.dom().contains(wanted[canonical_keys().len() as int]));
        }
    }
    parse_resolved_records(records, set)
}

pub(crate) proof fn lemma_no_missing_key(keys: Seq<Seq<char>>, present: Set<Seq<char>>, index: int)
    requires
        missing_keys(keys, present).len() == 0,
        0 <= index < keys.len(),
    ensures
        present.contains(keys[index]),
    decreases keys.len(),
{
    if index < keys.len() - 1 {
        lemma_no_missing_key(keys.drop_last(), present, index);
    }
}

pub(crate) proof fn lemma_no_color_fault(
    keys: Seq<Seq<char>>,
    colors: Map<Seq<char>, Seq<char>>,
    from: int,
    index: int,
)
    requires
        0 <= from <= index < keys.len(),
        color_fault(keys, colors, from) is None,
    ensures
        is_opaque_hex(colors[keys[index]]),
    decreases keys.len() - from,
{
    if from < index {
        lemma_no_color_fault(keys, colors, from + 1, index);
    }
}

/// A valid palette has a known mode and, for every canonical key, an opaque color
/// and its provenance.
pub proof fn lemma_valid_palette(palette: ResolvedPalette, index: int)
    requires
        palette.fault() is None,
        0 <= index < canonical_keys().len(),
    ensures
        is_mode(palette.mode@),
        text_values(palette.colors@).contains_key(canonical_keys()[index]),
        palette.provenance@.contains_key(canonical_keys()[index]),
        is_opaque_hex(text_values(palette.colors@)[canonical_keys()[index]]),
{
    let colors = text_values(palette.colors@);
    lemma_no_missing_key(canonical_keys(), colors.dom(), index);
    lemma_no_missing_key(canonical_keys(), palette.provenance@.dom(), index);
    lemma_no_color_fault(canonical_keys(), colors, 0, index);
}

} // verus!
