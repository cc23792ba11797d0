//! The scenes that colors are fitted against: surfaces with the layers that the
//! editor paints over them.

use crate::color::{
    first_invalid_layer, invalid_hex_message, layered, layers_are_hex, render_layers,
};
use crate::text::{same_text, slice_views, views};
use crate::Result;
use vstd::prelude::*;

verus! {

/// The texts without those that occurred before.
pub open spec fn without_repeats(texts: Seq<Seq<char>>) -> Seq<Seq<char>>
    decreases texts.len(),
{
    if texts.len() == 0 {
        Seq::empty()
    } else {
        let before = without_repeats(texts.drop_last());
        if texts.drop_last().contains(texts.last()) {
            before
        } else {
            before.push(texts.last())
        }
    }
}

/// What stays has the same texts, each once.
pub proof fn lemma_without_repeats(texts: Seq<Seq<char>>)
    ensures
        without_repeats(texts).no_duplicates(),
        forall|text: Seq<char>| #[trigger]
            without_repeats(texts).contains(text) <==> texts.contains(text),
    decreases texts.len(),
{
    if texts.len() > 0 {
        let shorter = texts.drop_last();
        let before = without_repeats(shorter);
        lemma_without_repeats(shorter);
        assert forall|text: Seq<char>| #[trigger] without_repeats(texts).contains(text)
            <==> texts.contains(text) by {
            if shorter.contains(text) {
                let i = choose|i: int| 0 <= i < shorter.len() && shorter[i] == text;
                assert(texts[i] == text);
                assert(before.contains(text));
                let j = choose|j: int| 0 <= j < before.len() && before[j] == text;
                if !shorter.contains(texts.last()) {
                    assert(without_repeats(texts)[j] == text);
                }
            }
            if texts.contains(text) && !shorter.contains(text) {
                let i = choose|i: int| 0 <= i < texts.len() && texts[i] == text;
                if i < shorter.len() {
                    assert(shorter[i] == text);
                }
                assert(text == texts.last());
                assert(without_repeats(texts)[before.len() as int] == text);
            }
            if without_repeats(texts).contains(text) {
                let j = choose|j: int|
                    0 <= j < without_repeats(texts).len() && without_repeats(texts)[j] == text;
                if j < before.len() {
                    assert(before[j] == text);
                    assert(before.contains(text));
                } else {
                    assert(texts[texts.len() - 1] == text);
                }
            }
        }
        if !shorter.contains(texts.last()) {
            assert(!before.contains(texts.last()));
        }
    } else {
        assert forall|text: Seq<char>| #[trigger] without_repeats(texts).contains(text)
            <==> texts.contains(text) by {}
    }
}

fn holds(texts: &Vec<String>, text: &str) -> (found: bool)
    ensures
        found == views(texts@).contains(text@),
{
    let mut index: usize = 0;
    while index < texts.len()
        invariant
            index <= texts@.len(),
            forall|i: int| 0 <= i < index ==> (#[trigger] texts@[i])@ != text@,
        decreases texts@.len() - index,
    {
        if same_text(texts[index].as_str(), text) {
            assert(views(texts@)[index as int] == text@);
            return true;
        }
        index += 1;
    }
    assert(!views(texts@).contains(text@)) by {
        if views(texts@).contains(text@) {
            let i = choose|i: int| 0 <= i < texts@.len() && views(texts@)[i] == text@;
            assert(texts@[i]@ == text@);
        }
    }
    false
}

/// The texts without those that occurred before.
pub fn unique(texts: &Vec<String>) -> (kept: Vec<String>)
    ensures
        views(kept@) == without_repeats(views(texts@)),
{
    let ghost all = views(texts@);
    let mut kept: Vec<String> = Vec::new();
    assert(views(kept@) =~= Seq::empty());
    let mut index: usize = 0;
    while index < texts.len()
        invariant
            all == views(texts@),
            index <= texts@.len(),
            views(kept@) == without_repeats(all.take(index as int)),
        decreases texts@.len() - index,
    {
        proof {
            lemma_without_repeats(all.take(index as int));
            assert(all.take(index + 1).drop_last() =~= all.take(index as int));
        }
        if !holds(&kept, texts[index].as_str()) {
            let ghost before = kept@;
            kept.push(texts[index].clone());
            assert(views(kept@) =~= views(before).push(texts@[index as int]@));
        }
        index += 1;
    }
    assert(all.take(index as int) =~= all);
    kept
}

/// Each base with the layers over it.
pub open spec fn rendered(bases: Seq<Seq<char>>, overlays: Seq<Seq<char>>) -> Seq<Seq<char>> {
    bases.map_values(|base: Seq<char>| layered(base, overlays))
}

/// Whether every color that compositing reads is a hex color.
pub open spec fn are_renderable(bases: Seq<Seq<char>>, overlays: Seq<Seq<char>>) -> bool {
    forall|i: int| 0 <= i < bases.len() ==> layers_are_hex(#[trigger] bases[i], overlays)
}

/// What is wrong with the first base that cannot be rendered.
pub open spec fn render_fault(bases: Seq<Seq<char>>, overlays: Seq<Seq<char>>) -> Seq<char>
    decreases bases.len(),
{
    if bases.len() == 0 {
        Seq::empty()
    } else if !layers_are_hex(bases[0], overlays) {
        invalid_hex_message(first_invalid_layer(bases[0], overlays))
    } else {
        render_fault(bases.drop_first(), overlays)
    }
}

/// Lays `overlays` over each base.
pub fn render_on_bases(bases: &Vec<String>, overlays: &[&str]) -> (result: Result<Vec<String>>)
    ensures
        result is Ok <==> are_renderable(views(bases@), slice_views(overlays@)),
        result matches Ok(scenes) ==> views(scenes@) == rendered(
            views(bases@),
            slice_views(overlays@),
        ),
        result matches Err(error) ==> error.is_invalid(
            render_fault(views(bases@), slice_views(overlays@)),
        ),
{
    let ghost all = views(bases@);
    let ghost layers = slice_views(overlays@);
    let mut scenes: Vec<String> = Vec::new();
    let mut index: usize = 0;
    assert(all.skip(0) =~= all);
    while index < bases.len()
        invariant
            all == views(bases@),
            layers == slice_views(overlays@),
            index <= bases@.len(),
            views(scenes@) == rendered(all.take(index as int), layers),
            forall|i: int| 0 <= i < index ==> layers_are_hex(#[trigger] all[i], layers),
            render_fault(all, layers) == render_fault(all.skip(index as int), layers),
        decreases bases@.len() - index,
    {
        assert(all.skip(index as int)[0] == all[index as int]);
        assert(all.skip(index as int).drop_first() =~= all.skip(index + 1));
        let scene = render_layers(bases[index].as_str(), overlays)?;
        let ghost before = scenes@;
        scenes.push(scene);
        index += 1;
        assert(views(scenes@) =~= views(before).push(layered(all[index - 1], layers)));
        assert(rendered(all.take(index as int), layers) =~= rendered(
            all.take(index - 1),
            layers,
        ).push(layered(all[index - 1], layers)));
    }
    assert(all.take(index as int) =~= all);
    Ok(scenes)
}

/// The bases under each of the layers, layer by layer.
pub open spec fn rendered_each(bases: Seq<Seq<char>>, layers: Seq<Seq<char>>) -> Seq<Seq<char>>
    decreases layers.len(),
{
    if layers.len() == 0 {
        Seq::empty()
    } else {
        rendered_each(bases, layers.drop_last()) + rendered(bases, seq![layers.last()])
    }
}

/// The bases and, for each highlight, the bases under it.
pub open spec fn highlighted(bases: Seq<Seq<char>>, highlights: Seq<Seq<char>>) -> Seq<Seq<char>> {
    bases + rendered_each(bases, highlights)
}

/// What is wrong with the first highlight that cannot be rendered.
pub open spec fn highlight_fault(bases: Seq<Seq<char>>, highlights: Seq<Seq<char>>) -> Option<
    Seq<char>,
>
    decreases highlights.len(),
{
    if highlights.len() == 0 {
        None
    } else if !are_renderable(bases, seq![highlights[0]]) {
        Some(render_fault(bases, seq![highlights[0]]))
    } else {
        highlight_fault(bases, highlights.drop_first())
    }
}

pub(crate) fn append_texts(texts: &mut Vec<String>, more: &Vec<String>)
    ensures
        views(final(texts)@) == views(old(texts)@) + views(more@),
{
    let mut index: usize = 0;
    while index < more.len()
        invariant
            index <= more@.len(),
            views(texts@) == views(old(texts)@) + views(more@).take(index as int),
        decreases more@.len() - index,
    {
        let ghost before = texts@;
        texts.push(more[index].clone());
        assert(views(texts@) =~= views(before).push(more@[index as int]@));
        index += 1;
        assert(views(more@).take(index as int) =~= views(more@).take(index - 1).push(
            more@[index - 1]@,
        ));
    }
    assert(views(more@).take(index as int) =~= views(more@));
}

/// Lays each of the layers over each base, layer by layer.
pub fn render_each(bases: &Vec<String>, layers: &[&str]) -> (result: Result<Vec<String>>)
    ensures
        result is Ok <==> highlight_fault(views(bases@), slice_views(layers@)) is None,
        result matches Ok(scenes) ==> views(scenes@) == rendered_each(
            views(bases@),
            slice_views(layers@),
        ),
        result matches Err(error) ==> error.is_invalid(
            highlight_fault(views(bases@), slice_views(layers@))->0,
        ),
{
    let ghost all = slice_views(layers@);
    let ghost grounds = views(bases@);
    let mut scenes: Vec<String> = Vec::new();
    assert(views(scenes@) =~= Seq::<Seq<char>>::empty());
    let mut index: usize = 0;
    assert(all.take(0) =~= Seq::empty());
    assert(all.skip(0) =~= all);
    while index < layers.len()
        invariant
            all == slice_views(layers@),
            grounds == views(bases@),
            index <= layers@.len(),
            views(scenes@) == rendered_each(grounds, all.take(index as int)),
            highlight_fault(grounds, all) == highlight_fault(grounds, all.skip(index as int)),
        decreases layers@.len() - index,
    {
        let layer = layers[index];
        assert(slice_views([layer]@) =~= seq![layer@]);
        assert(all.skip(index as int)[0] == all[index as int]);
        assert(all.skip(index as int).drop_first() =~= all.skip(index + 1));
        assert(all.take(index + 1).drop_last() =~= all.take(index as int));
        let covered = render_on_bases(bases, &[layer])?;
        append_texts(&mut scenes, &covered);
        index += 1;
    }
    assert(all.take(index as int) =~= all);
    Ok(scenes)
}

/// The scenes in which at most one of the highlights lies over a base. The editor
/// permits several in any order; one is the largest depth at which every text keeps
/// its contrast.
pub fn render_with_bounded_generic_highlights(bases: &Vec<String>, highlights: &[&str]) -> (result:
    Result<Vec<String>>)
    ensures
        result is Ok <==> highlight_fault(views(bases@), slice_views(highlights@)) is None,
        result matches Ok(scenes) ==> views(scenes@) == highlighted(
            views(bases@),
            slice_views(highlights@),
        ),
        result matches Err(error) ==> error.is_invalid(
            highlight_fault(views(bases@), slice_views(highlights@))->0,
        ),
{
    let covered = render_each(bases, highlights)?;
    let mut scenes: Vec<String> = Vec::new();
    append_texts(&mut scenes, bases);
    append_texts(&mut scenes, &covered);
    assert(views(scenes@) =~= highlighted(views(bases@), slice_views(highlights@)));
    Ok(scenes)
}

/// The lists one behind the other.
pub open spec fn gathered(lists: Seq<&Vec<String>>) -> Seq<Seq<char>>
    decreases lists.len(),
{
    if lists.len() == 0 {
        Seq::empty()
    } else {
        gathered(lists.drop_last()) + views(lists.last()@)
    }
}

/// The texts of all lists without those that occurred before.
pub fn unique_of_all(lists: &[&Vec<String>]) -> (kept: Vec<String>)
    ensures
        views(kept@) == without_repeats(gathered(lists@)),
{
    let mut all: Vec<String> = Vec::new();
    assert(views(all@) =~= Seq::<Seq<char>>::empty());
    let mut index: usize = 0;
    assert(lists@.take(0) =~= Seq::empty());
    while index < lists.len()
        invariant
            index <= lists@.len(),
            views(all@) == gathered(lists@.take(index as int)),
        decreases lists@.len() - index,
    {
        assert(lists@.take(index + 1).drop_last() =~= lists@.take(index as int));
        append_texts(&mut all, lists[index]);
        index += 1;
    }
    assert(lists@.take(index as int) =~= lists@);
    unique(&all)
}

fn push_text(texts: &mut Vec<String>, text: &str)
    ensures
        views(final(texts)@) == views(old(texts)@).push(text@),
{
    texts.push(text.to_owned());
    assert(views(texts@) =~= views(old(texts)@).push(text@));
}

fn empty_list() -> (texts: Vec<String>)
    ensures
        views(texts@) == Seq::<Seq<char>>::empty(),
{
    let texts: Vec<String> = Vec::new();
    assert(views(texts@) =~= Seq::<Seq<char>>::empty());
    texts
}

/// The four surfaces of a window.
#[derive(Clone, Debug)]
pub struct Surfaces {
    pub canvas: String,
    pub surface: String,
    pub elevated: String,
    pub chrome: String,
}

impl Surfaces {
    /// The surfaces without repeats.
    pub fn backgrounds(&self) -> (backgrounds: Vec<String>)
        ensures
            views(backgrounds@) == without_repeats(
                seq![self.canvas@, self.surface@, self.elevated@, self.chrome@],
            ),
    {
        let mut all = empty_list();
        push_text(&mut all, self.canvas.as_str());
        push_text(&mut all, self.surface.as_str());
        push_text(&mut all, self.elevated.as_str());
        push_text(&mut all, self.chrome.as_str());
        assert(views(all@) =~= seq![self.canvas@, self.surface@, self.elevated@, self.chrome@]);
        unique(&all)
    }
}

/// The surfaces that interaction states are painted on.
pub fn interaction_bases(backgrounds: &Vec<String>, panel_overlay: &str, canvas: &str) -> (bases:
    Vec<String>)
    ensures
        views(bases@) == without_repeats(
            views(backgrounds@).push(panel_overlay@).push(canvas@),
        ),
{
    let mut all = empty_list();
    append_texts(&mut all, backgrounds);
    push_text(&mut all, panel_overlay);
    push_text(&mut all, canvas);
    assert(views(all@) =~= views(backgrounds@).push(panel_overlay@).push(canvas@));
    unique(&all)
}

/// The surfaces that carry text, inactive tabs among them.
pub fn text_bases(interactions: &Vec<String>, tab_inactive: &str) -> (bases: Vec<String>)
    ensures
        views(bases@) == without_repeats(views(interactions@).push(tab_inactive@)),
{
    let mut all = empty_list();
    append_texts(&mut all, interactions);
    push_text(&mut all, tab_inactive);
    assert(views(all@) =~= views(interactions@).push(tab_inactive@));
    unique(&all)
}

/// The surfaces that semantic colors are read on. An inactive tab that had to be
/// fitted to the canvas is a state of its own and no base for them.
pub fn semantic_bases(interactions: &Vec<String>, tab_inactive: &str, chrome_separates: bool) -> (
bases: Vec<String>)
    ensures
        views(bases@) == without_repeats(
            if chrome_separates {
                views(interactions@).push(tab_inactive@)
            } else {
                views(interactions@)
            },
        ),
{
    if chrome_separates {
        text_bases(interactions, tab_inactive)
    } else {
        unique(interactions)
    }
}

/// Each of the layers over the base.
pub open spec fn under_each(base: Seq<char>, layers: Seq<Seq<char>>) -> Seq<Seq<char>> {
    layers.map_values(|layer: Seq<char>| layered(base, seq![layer]))
}

/// Each of the layers over each of the bases, base by base.
pub open spec fn states_of(bases: Seq<Seq<char>>, layers: Seq<Seq<char>>) -> Seq<Seq<char>>
    decreases bases.len(),
{
    if bases.len() == 0 {
        Seq::empty()
    } else {
        states_of(bases.drop_last(), layers) + under_each(bases.last(), layers)
    }
}

/// What is wrong with the first layer that cannot be laid over the base.
pub open spec fn state_fault(base: Seq<char>, layers: Seq<Seq<char>>) -> Option<Seq<char>>
    decreases layers.len(),
{
    if layers.len() == 0 {
        None
    } else if !layers_are_hex(base, seq![layers[0]]) {
        Some(invalid_hex_message(first_invalid_layer(base, seq![layers[0]])))
    } else {
        state_fault(base, layers.drop_first())
    }
}

/// What is wrong with the first base that the layers cannot be laid over.
pub open spec fn states_fault(bases: Seq<Seq<char>>, layers: Seq<Seq<char>>) -> Option<Seq<char>>
    decreases bases.len(),
{
    if bases.len() == 0 {
        None
    } else if state_fault(bases[0], layers) is Some {
        state_fault(bases[0], layers)
    } else {
        states_fault(bases.drop_first(), layers)
    }
}

fn push_states(scenes: &mut Vec<String>, base: &str, layers: &Vec<String>) -> (result: Result<()>)
    ensures
        result is Ok <==> state_fault(base@, views(layers@)) is None,
        result is Ok ==> views(final(scenes)@) == views(old(scenes)@) + under_each(
            base@,
            views(layers@),
        ),
        result matches Err(error) ==> error.is_invalid(state_fault(base@, views(layers@))->0),
{
    let ghost all = views(layers@);
    let mut index: usize = 0;
    assert(under_each(base@, all.take(0)) =~= Seq::empty());
    assert(all.skip(0) =~= all);
    while index < layers.len()
        invariant
            all == views(layers@),
            index <= layers@.len(),
            state_fault(base@, all) == state_fault(base@, all.skip(index as int)),
            views(scenes@) == views(old(scenes)@) + under_each(base@, all.take(index as int)),
        decreases layers@.len() - index,
    {
        let layer = layers[index].as_str();
        assert(all[index as int] == layer@);
        assert(slice_views([layer]@) =~= seq![layer@]);
        assert(all.skip(index as int)[0] == all[index as int]);
        assert(all.skip(index as int).drop_first() =~= all.skip(index + 1));
        let scene = render_layers(base, &[layer])?;
        push_text(scenes, scene.as_str());
        index += 1;
        assert(under_each(base@, all.take(index as int)) =~= under_each(
            base@,
            all.take(index - 1),
        ).push(layered(base@, seq![all[index - 1]])));
    }
    assert(all.take(index as int) =~= all);
    Ok(())
}

/// Every background of interface text: the surfaces, the hovered panel overlay and
/// every interaction layer over every surface.
pub fn ui_backgrounds(bases: &Vec<String>, panel_overlay_hover: &str, layers: &Vec<String>) -> (
result: Result<Vec<String>>)
    ensures
        result is Ok <==> states_fault(views(bases@), views(layers@)) is None,
        result matches Ok(backgrounds) ==> views(backgrounds@) == without_repeats(
            views(bases@).push(panel_overlay_hover@) + states_of(views(bases@), views(layers@)),
        ),
        result matches Err(error) ==> error.is_invalid(
            states_fault(views(bases@), views(layers@))->0,
        ),
{
    let ghost all = views(bases@);
    let mut scenes = empty_list();
    append_texts(&mut scenes, bases);
    push_text(&mut scenes, panel_overlay_hover);
    let ghost head = views(scenes@);
    assert(head =~= all.push(panel_overlay_hover@));
    let mut index: usize = 0;
    assert(all.take(0) =~= Seq::empty());
    assert(all.skip(0) =~= all);
    while index < bases.len()
        invariant
            all == views(bases@),
            index <= bases@.len(),
            states_fault(all, views(layers@)) == states_fault(
                all.skip(index as int),
                views(layers@),
            ),
            views(scenes@) == head + states_of(all.take(index as int), views(layers@)),
        decreases bases@.len() - index,
    {
        assert(all[index as int] == bases@[index as int]@);
        assert(all.take(index + 1).drop_last() =~= all.take(index as int));
        assert(all.skip(index as int)[0] == all[index as int]);
        assert(all.skip(index as int).drop_first() =~= all.skip(index + 1));
        push_states(&mut scenes, bases[index].as_str(), layers)?;
        index += 1;
        assert(views(scenes@) =~= head + states_of(all.take(index as int), views(layers@)));
    }
    assert(all.take(index as int) =~= all);
    Ok(unique(&scenes))
}

/// The lines that the editor paints over its canvas.
#[derive(Clone, Debug)]
pub struct EditorLines {
    pub active: String,
    pub highlighted: String,
    pub debugger: String,
}

impl EditorLines {
    /// The lines in the order in which they are painted.
    pub open spec fn layers(&self) -> Seq<Seq<char>> {
        seq![self.active@, self.highlighted@, self.debugger@]
    }
}

/// The backgrounds of an editor without changes or highlights.
pub fn editor_bases(surfaces: &Surfaces, lines: &EditorLines) -> (result: Result<Vec<String>>)
    ensures
        result is Ok <==> state_fault(surfaces.canvas@, lines.layers()) is None,
        result matches Err(error) ==> error.is_invalid(
            state_fault(surfaces.canvas@, lines.layers())->0,
        ),
        result matches Ok(bases) ==> views(bases@) == without_repeats(
            seq![
                surfaces.canvas@,
                surfaces.chrome@,
                layered(surfaces.canvas@, seq![lines.active@]),
                layered(surfaces.canvas@, seq![lines.highlighted@]),
                layered(surfaces.canvas@, seq![lines.debugger@]),
            ],
        ),
{
    let canvas = surfaces.canvas.as_str();
    let mut all = empty_list();
    push_text(&mut all, canvas);
    push_text(&mut all, surfaces.chrome.as_str());
    let mut layers = empty_list();
    push_text(&mut layers, lines.active.as_str());
    push_text(&mut layers, lines.highlighted.as_str());
    push_text(&mut layers, lines.debugger.as_str());
    assert(views(layers@) =~= lines.layers());
    push_states(&mut all, canvas, &layers)?;
    assert(views(all@) =~= seq![
        surfaces.canvas@,
        surfaces.chrome@,
        layered(surfaces.canvas@, seq![lines.active@]),
        layered(surfaces.canvas@, seq![lines.highlighted@]),
        layered(surfaces.canvas@, seq![lines.debugger@]),
    ]);
    Ok(unique(&all))
}

/// What the terminal shows text on: the canvas and the selection over it, focused
/// and not.
pub fn terminal_backgrounds(canvas: &str, selection: &str, unfocused: &str) -> (result: Result<
    Vec<String>,
>)
    ensures
        result is Ok <==> state_fault(canvas@, seq![selection@, unfocused@]) is None,
        result matches Err(error) ==> error.is_invalid(
            state_fault(canvas@, seq![selection@, unfocused@])->0,
        ),
        result matches Ok(backgrounds) ==> views(backgrounds@) == without_repeats(
            seq![
                canvas@,
                layered(canvas@, seq![selection@]),
                layered(canvas@, seq![unfocused@]),
            ],
        ),
{
    let mut all = empty_list();
    push_text(&mut all, canvas);
    let mut layers = empty_list();
    push_text(&mut layers, selection);
    push_text(&mut layers, unfocused);
    assert(views(layers@) =~= seq![selection@, unfocused@]);
    push_states(&mut all, canvas, &layers)?;
    assert(views(all@) =~= seq![
        canvas@,
        layered(canvas@, seq![selection@]),
        layered(canvas@, seq![unfocused@]),
    ]);
    Ok(unique(&all))
}

/// Every background of syntax: the editor's bases and text backgrounds, and the
/// selection over the latter, focused and not.
pub fn syntax_contexts(
    bases: &Vec<String>,
    backgrounds: &Vec<String>,
    selection: &str,
    unfocused: &str,
) -> (result: Result<Vec<String>>)
    ensures
        result is Ok <==> are_renderable(views(backgrounds@), seq![selection@]) && are_renderable(
            views(backgrounds@),
            seq![unfocused@],
        ),
        result matches Err(error) ==> error.is_invalid(
            if are_renderable(views(backgrounds@), seq![selection@]) {
                render_fault(views(backgrounds@), seq![unfocused@])
            } else {
                render_fault(views(backgrounds@), seq![selection@])
            },
        ),
        result matches Ok(contexts) ==> views(contexts@) == without_repeats(
            views(bases@) + views(backgrounds@) + rendered(views(backgrounds@), seq![selection@])
                + rendered(views(backgrounds@), seq![unfocused@]),
        ),
{
    assert(slice_views([selection]@) =~= seq![selection@]);
    assert(slice_views([unfocused]@) =~= seq![unfocused@]);
    let mut all = empty_list();
    append_texts(&mut all, bases);
    append_texts(&mut all, backgrounds);
    let focused = render_on_bases(backgrounds, &[selection])?;
    append_texts(&mut all, &focused);
    let unfocused_scenes = render_on_bases(backgrounds, &[unfocused])?;
    append_texts(&mut all, &unfocused_scenes);
    assert(views(all@) =~= views(bases@) + views(backgrounds@) + rendered(
        views(backgrounds@),
        seq![selection@],
    ) + rendered(views(backgrounds@), seq![unfocused@]));
    Ok(unique(&all))
}

/// What the foreground of a status is read on.
pub fn status_foreground_backgrounds(
    interactions: &Vec<String>,
    backgrounds: &Vec<String>,
    status_background: &str,
    more: &Vec<String>,
) -> (all: Vec<String>)
    ensures
        views(all@) == without_repeats(
            (views(interactions@) + views(backgrounds@)).push(status_background@) + views(more@),
        ),
{
    let mut all = empty_list();
    append_texts(&mut all, interactions);
    append_texts(&mut all, backgrounds);
    push_text(&mut all, status_background);
    append_texts(&mut all, more);
    assert(views(all@) =~= (views(interactions@) + views(backgrounds@)).push(status_background@)
        + views(more@));
    unique(&all)
}

/// What a player's cursor is seen on: the text backgrounds and, background by
/// background, the selection over it, focused and not.
pub fn cursor_backgrounds(backgrounds: &Vec<String>, selection: &str, unfocused: &str) -> (result:
    Result<Vec<String>>)
    ensures
        result is Ok <==> states_fault(views(backgrounds@), seq![selection@, unfocused@]) is None,
        result matches Err(error) ==> error.is_invalid(
            states_fault(views(backgrounds@), seq![selection@, unfocused@])->0,
        ),
        result matches Ok(scenes) ==> views(scenes@) == without_repeats(
            views(backgrounds@) + states_of(views(backgrounds@), seq![selection@, unfocused@]),
        ),
{
    let ghost all = views(backgrounds@);
    let ghost pair = seq![selection@, unfocused@];
    let mut layers = empty_list();
    push_text(&mut layers, selection);
    push_text(&mut layers, unfocused);
    assert(views(layers@) =~= pair);
    let mut scenes = empty_list();
    append_texts(&mut scenes, backgrounds);
    assert(views(scenes@) =~= all);
    let mut index: usize = 0;
    assert(all.take(0) =~= Seq::empty());
    assert(all.skip(0) =~= all);
    while index < backgrounds.len()
        invariant
            all == views(backgrounds@),
            views(layers@) == pair,
            pair == seq![selection@, unfocused@],
            index <= backgrounds@.len(),
            states_fault(all, pair) == states_fault(all.skip(index as int), pair),
            views(scenes@) == all + states_of(all.take(index as int), pair),
        decreases backgrounds@.len() - index,
    {
        assert(all[index as int] == backgrounds@[index as int]@);
        assert(all.take(index + 1).drop_last() =~= all.take(index as int));
        assert(all.skip(index as int)[0] == all[index as int]);
        assert(all.skip(index as int).drop_first() =~= all.skip(index + 1));
        push_states(&mut scenes, backgrounds[index].as_str(), &layers)?;
        index += 1;
        assert(views(scenes@) =~= all + states_of(all.take(index as int), pair));
    }
    assert(all.take(index as int) =~= all);
    Ok(unique(&scenes))
}

} // verus!
