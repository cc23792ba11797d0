//! What a search asks of its colors: backgrounds to be seen on, and hex texts.

use crate::color::{
    invalid_hex_message, is_hex, is_opaque_hex, normalize_hex, opaque_hex_message,
    palette_key_label, parse_hex,
};
use crate::search::request::{
    OverlayFitRequest, ReadableForeground, Reference, RuntimeReference, StateFitRequest,
};
use crate::text::{decimal, decimal_of, views};
use crate::{Error, Result};
use vstd::prelude::*;

verus! {

/// Whether the result is an error exactly if there is a fault, and then says it.
pub open spec fn tells(result: Result<()>, fault: Option<Seq<char>>) -> bool {
    match (result, fault) {
        (Ok(_), None) => true,
        (Err(error), Some(message)) => error.is_invalid(message),
        _ => false,
    }
}

/// The first of two faults.
pub open spec fn earlier(first: Option<Seq<char>>, second: Option<Seq<char>>) -> Option<Seq<char>> {
    if first is Some {
        first
    } else {
        second
    }
}

/// The first text from `from` on that is no hex color.
pub open spec fn hex_fault(texts: Seq<Seq<char>>, from: int) -> Option<Seq<char>>
    decreases texts.len() - from,
{
    if from < 0 || from >= texts.len() {
        None
    } else if !is_hex(texts[from]) {
        Some(invalid_hex_message(texts[from]))
    } else {
        hex_fault(texts, from + 1)
    }
}

/// The first text from `from` on that is no opaque hex color.
pub open spec fn opaque_fault(texts: Seq<Seq<char>>, label: Seq<char>, from: int) -> Option<Seq<char>>
    decreases texts.len() - from,
{
    if from < 0 || from >= texts.len() {
        None
    } else if !is_opaque_hex(texts[from]) {
        Some(opaque_hex_message(palette_key_label(label), texts[from]))
    } else {
        opaque_fault(texts, label, from + 1)
    }
}

/// How a text of a list is named in an error.
pub open spec fn numbered(name: Seq<char>, index: nat) -> Seq<char> {
    name + "["@ + decimal_of(index) + "]"@
}

/// The first text from `from` on that is no hex color, with its place.
pub open spec fn numbered_fault(texts: Seq<Seq<char>>, name: Seq<char>, from: int) -> Option<
    Seq<char>,
>
    decreases texts.len() - from,
{
    if from < 0 || from >= texts.len() {
        None
    } else if !is_hex(texts[from]) {
        Some(numbered(name, from as nat) + ": "@ + invalid_hex_message(texts[from]))
    } else {
        numbered_fault(texts, name, from + 1)
    }
}

fn check_hex(texts: &Vec<String>) -> (result: Result<()>)
    ensures
        tells(result, hex_fault(views(texts@), 0)),
{
    let mut index: usize = 0;
    while index < texts.len()
        invariant
            index <= texts@.len(),
            hex_fault(views(texts@), 0) == hex_fault(views(texts@), index as int),
        decreases texts@.len() - index,
    {
        assert(views(texts@)[index as int] == texts@[index as int]@);
        parse_hex(texts[index].as_str())?;
        index += 1;
    }
    Ok(())
}

fn check_opaque(texts: &Vec<String>, label: &str) -> (result: Result<()>)
    ensures
        tells(result, opaque_fault(views(texts@), label@, 0)),
{
    let mut index: usize = 0;
    while index < texts.len()
        invariant
            index <= texts@.len(),
            opaque_fault(views(texts@), label@, 0) == opaque_fault(
                views(texts@),
                label@,
                index as int,
            ),
        decreases texts@.len() - index,
    {
        assert(views(texts@)[index as int] == texts@[index as int]@);
        normalize_hex(texts[index].as_str(), label)?;
        index += 1;
    }
    Ok(())
}

fn check_numbered(texts: &Vec<String>, name: &str) -> (result: Result<()>)
    ensures
        tells(result, numbered_fault(views(texts@), name@, 0)),
{
    let mut index: usize = 0;
    while index < texts.len()
        invariant
            index <= texts@.len(),
            numbered_fault(views(texts@), name@, 0) == numbered_fault(
                views(texts@),
                name@,
                index as int,
            ),
        decreases texts@.len() - index,
    {
        assert(views(texts@)[index as int] == texts@[index as int]@);
        if let Err(error) = parse_hex(texts[index].as_str()) {
            let mut place = name.to_owned();
            place.append("[");
            place.append(decimal(index).as_str());
            place.append("]");
            assert(place@ == numbered(name@, index as nat));
            return Err(error.context(place.as_str()));
        }
        index += 1;
    }
    Ok(())
}

fn refuse(message: &str) -> (result: Result<()>)
    ensures
        tells(result, Some(message@)),
{
    Err(Error::invalid(message.to_owned()))
}

/// What is wrong with the colors of a color fit.
pub open spec fn color_fit_fault(
    seed: Seq<char>,
    backgrounds: Seq<Seq<char>>,
    preferences: Seq<Seq<char>>,
    avoided: Seq<Seq<char>>,
) -> Option<Seq<char>> {
    if backgrounds.len() == 0 || preferences.len() == 0 {
        Some("fit_color requires at least one background"@)
    } else {
        earlier(
            opaque_fault(seq![seed], "fit_color seed"@, 0),
            earlier(
                opaque_fault(backgrounds, "fit_color background"@, 0),
                earlier(
                    opaque_fault(preferences, "fit_color preference background"@, 0),
                    opaque_fault(avoided, "fit_color avoided color"@, 0),
                ),
            ),
        )
    }
}

/// Accepts the colors of a color fit: there are backgrounds, and every color is opaque.
pub fn check_color_fit(
    seed: &str,
    backgrounds: &Vec<String>,
    preferences: &Vec<String>,
    avoided: &Vec<String>,
) -> (result: Result<()>)
    ensures
        tells(
            result,
            color_fit_fault(seed@, views(backgrounds@), views(preferences@), views(avoided@)),
        ),
{
    if backgrounds.len() == 0 || preferences.len() == 0 {
        return refuse("fit_color requires at least one background");
    }
    proof {
        reveal_with_fuel(opaque_fault, 2);
    }
    normalize_hex(seed, "fit_color seed")?;
    check_opaque(backgrounds, "fit_color background")?;
    check_opaque(preferences, "fit_color preference background")?;
    check_opaque(avoided, "fit_color avoided color")
}

/// The colors of references.
pub open spec fn reference_colors(references: Seq<Reference>) -> Seq<Seq<char>> {
    references.map_values(|reference: Reference| reference.color@)
}

fn colors_of(references: &Vec<Reference>) -> (colors: Vec<String>)
    ensures
        views(colors@) == reference_colors(references@),
{
    let mut colors: Vec<String> = Vec::new();
    let mut index: usize = 0;
    while index < references.len()
        invariant
            index <= references@.len(),
            views(colors@) == reference_colors(references@).take(index as int),
        decreases references@.len() - index,
    {
        let ghost before = views(colors@);
        colors.push(references[index].color.clone());
        assert(views(colors@) =~= before.push(references@[index as int].color@));
        index += 1;
        assert(views(colors@) =~= reference_colors(references@).take(index as int));
    }
    assert(views(colors@) =~= reference_colors(references@));
    colors
}

/// The colors of runtime references.
pub open spec fn runtime_colors(references: Seq<RuntimeReference>) -> Seq<Seq<char>> {
    references.map_values(|reference: RuntimeReference| reference.color@)
}

fn runtime_colors_of(references: &Vec<RuntimeReference>) -> (colors: Vec<String>)
    ensures
        views(colors@) == runtime_colors(references@),
{
    let mut colors: Vec<String> = Vec::new();
    let mut index: usize = 0;
    while index < references.len()
        invariant
            index <= references@.len(),
            views(colors@) == runtime_colors(references@).take(index as int),
        decreases references@.len() - index,
    {
        let ghost before = views(colors@);
        colors.push(references[index].color.clone());
        assert(views(colors@) =~= before.push(references@[index as int].color@));
        index += 1;
        assert(views(colors@) =~= runtime_colors(references@).take(index as int));
    }
    assert(views(colors@) =~= runtime_colors(references@));
    colors
}

/// The colors of foregrounds.
pub open spec fn foreground_colors(foregrounds: Seq<ReadableForeground>) -> Seq<Seq<char>> {
    foregrounds.map_values(|foreground: ReadableForeground| foreground.color@)
}

fn foreground_colors_of(foregrounds: &Vec<ReadableForeground>) -> (colors: Vec<String>)
    ensures
        views(colors@) == foreground_colors(foregrounds@),
{
    let mut colors: Vec<String> = Vec::new();
    let mut index: usize = 0;
    while index < foregrounds.len()
        invariant
            index <= foregrounds@.len(),
            views(colors@) == foreground_colors(foregrounds@).take(index as int),
        decreases foregrounds@.len() - index,
    {
        let ghost before = views(colors@);
        colors.push(foregrounds[index].color.clone());
        assert(views(colors@) =~= before.push(foregrounds@[index as int].color@));
        index += 1;
        assert(views(colors@) =~= foreground_colors(foregrounds@).take(index as int));
    }
    assert(views(colors@) =~= foreground_colors(foregrounds@));
    colors
}

/// What is wrong with the colors of a state fit.
pub open spec fn state_fit_fault(request: StateFitRequest) -> Option<Seq<char>> {
    if request.backgrounds@.len() == 0 {
        Some("fit_state requires at least one background"@)
    } else {
        earlier(
            hex_fault(views(request.backgrounds@), 0),
            hex_fault(reference_colors(request.references@), 0),
        )
    }
}

/// Accepts the colors of a state fit.
pub fn check_state_fit(request: &StateFitRequest) -> (result: Result<()>)
    ensures
        tells(result, state_fit_fault(*request)),
{
    if request.backgrounds.len() == 0 {
        return refuse("fit_state requires at least one background");
    }
    check_hex(&request.backgrounds)?;
    check_hex(&colors_of(&request.references))
}

/// What is wrong with the colors of a fill.
pub open spec fn overlay_fit_fault(request: OverlayFitRequest) -> Option<Seq<char>> {
    if request.backgrounds@.len() == 0 {
        Some("overlay fit requires at least one background"@)
    } else {
        earlier(
            hex_fault(views(request.backgrounds@), 0),
            earlier(
                hex_fault(views(request.readability_backgrounds@), 0),
                earlier(
                    hex_fault(foreground_colors(request.readable_foregrounds@), 0),
                    earlier(
                        hex_fault(reference_colors(request.rendered_references@), 0),
                        hex_fault(runtime_colors(request.runtime_rendered_references@), 0),
                    ),
                ),
            ),
        )
    }
}

/// Accepts the colors of a fill.
pub fn check_overlay_fit(request: &OverlayFitRequest) -> (result: Result<()>)
    ensures
        tells(result, overlay_fit_fault(*request)),
{
    if request.backgrounds.len() == 0 {
        return refuse("overlay fit requires at least one background");
    }
    check_hex(&request.backgrounds)?;
    check_hex(&request.readability_backgrounds)?;
    check_hex(&foreground_colors_of(&request.readable_foregrounds))?;
    check_hex(&colors_of(&request.rendered_references))?;
    check_hex(&runtime_colors_of(&request.runtime_rendered_references))
}

/// What is wrong with the colors of fits that differ.
pub open spec fn distinct_fit_fault(seeds: Seq<Seq<char>>, backgrounds: Seq<Seq<char>>) -> Option<
    Seq<char>,
> {
    if backgrounds.len() == 0 {
        Some("fit_distinct_colors requires at least one background"@)
    } else {
        earlier(
            numbered_fault(seeds, "distinct color seed"@, 0),
            numbered_fault(backgrounds, "distinct color background"@, 0),
        )
    }
}

/// Accepts the colors of fits that differ.
pub fn check_distinct_fit(seeds: &Vec<String>, backgrounds: &Vec<String>) -> (result: Result<()>)
    ensures
        tells(result, distinct_fit_fault(views(seeds@), views(backgrounds@))),
{
    if backgrounds.len() == 0 {
        return refuse("fit_distinct_colors requires at least one background");
    }
    check_numbered(seeds, "distinct color seed")?;
    check_numbered(backgrounds, "distinct color background")
}

/// Accepts backgrounds for both colors of a pair.
pub fn check_pair_backgrounds(first: &Vec<String>, second: &Vec<String>) -> (result: Result<()>)
    ensures
        tells(
            result,
            if first@.len() == 0 || second@.len() == 0 {
                Some("fit_pair requires at least one background"@)
            } else {
                None
            },
        ),
{
    if first.len() == 0 || second.len() == 0 {
        refuse("fit_pair requires at least one background")
    } else {
        Ok(())
    }
}

/// Accepts two fills that are seen on as many backgrounds.
pub fn check_scene_counts(first: &OverlayFitRequest, second: &OverlayFitRequest) -> (result:
    Result<()>)
    ensures
        tells(
            result,
            if first.backgrounds@.len() != second.backgrounds@.len() {
                Some("overlay pair scene counts differ"@)
            } else {
                None
            },
        ),
{
    if first.backgrounds.len() != second.backgrounds.len() {
        refuse("overlay pair scene counts differ")
    } else {
        Ok(())
    }
}

} // verus!
