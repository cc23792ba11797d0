//! Which scenes colors are fitted against.

use crate::color::layered;
use crate::text::views;
use crate::theme::scenes::{
    cursor_backgrounds, editor_bases, highlighted, interaction_bases, lemma_without_repeats,
    rendered, rendered_each, semantic_bases, states_of, status_foreground_backgrounds,
    syntax_contexts, terminal_backgrounds, text_bases, ui_backgrounds, under_each, without_repeats,
    EditorLines, Surfaces,
};
use crate::Error;
use vstd::prelude::*;

verus! {

/// Whether one of the texts is the layer over one of the bases.
pub open spec fn is_layer_over(bases: Seq<Seq<char>>, layer: Seq<char>, scene: Seq<char>) -> bool {
    exists|i: int| 0 <= i < bases.len() && scene == layered(#[trigger] bases[i], seq![layer])
}

proof fn lemma_rendered(bases: Seq<Seq<char>>, layer: Seq<char>, scene: Seq<char>)
    ensures
        rendered(bases, seq![layer]).contains(scene) <==> is_layer_over(bases, layer, scene),
{
    let scenes = rendered(bases, seq![layer]);
    if scenes.contains(scene) {
        let at = choose|i: int| 0 <= i < scenes.len() && scenes[i] == scene;
        assert(scene == layered(bases[at], seq![layer]));
    }
    if is_layer_over(bases, layer, scene) {
        let at = choose|i: int|
            0 <= i < bases.len() && scene == layered(#[trigger] bases[i], seq![layer]);
        assert(scenes[at] == scene);
    }
}

proof fn lemma_in_either(first: Seq<Seq<char>>, second: Seq<Seq<char>>, text: Seq<char>)
    ensures
        (first + second).contains(text) <==> first.contains(text) || second.contains(text),
{
    let both = first + second;
    if both.contains(text) {
        let at = choose|i: int| 0 <= i < both.len() && both[i] == text;
        if at < first.len() {
            assert(first[at] == text);
        } else {
            assert(second[at - first.len()] == text);
        }
    }
    if first.contains(text) {
        let at = choose|i: int| 0 <= i < first.len() && first[i] == text;
        assert(both[at] == text);
    }
    if second.contains(text) {
        let at = choose|i: int| 0 <= i < second.len() && second[i] == text;
        assert(both[first.len() + at] == text);
    }
}

proof fn lemma_in_pushed(texts: Seq<Seq<char>>, last: Seq<char>, text: Seq<char>)
    ensures
        texts.push(last).contains(text) <==> texts.contains(text) || text == last,
{
    assert(texts.push(last) =~= texts + seq![last]);
    lemma_in_either(texts, seq![last], text);
    assert(seq![last][0] == last);
}

/// Highlights are seen alone, each over each base, and the bases are seen without any.
pub proof fn lemma_highlighted_scenes(
    bases: Seq<Seq<char>>,
    highlights: Seq<Seq<char>>,
    scene: Seq<char>,
)
    ensures
        highlighted(bases, highlights).contains(scene) <==> bases.contains(scene) || exists|k: int|
            0 <= k < highlights.len() && is_layer_over(bases, #[trigger] highlights[k], scene),
{
    lemma_in_either(bases, rendered_each(bases, highlights), scene);
    lemma_rendered_each(bases, highlights, scene);
}

proof fn lemma_rendered_each(bases: Seq<Seq<char>>, layers: Seq<Seq<char>>, scene: Seq<char>)
    ensures
        rendered_each(bases, layers).contains(scene) <==> exists|k: int|
            0 <= k < layers.len() && is_layer_over(bases, #[trigger] layers[k], scene),
    decreases layers.len(),
{
    if layers.len() > 0 {
        let shorter = layers.drop_last();
        lemma_rendered_each(bases, shorter, scene);
        lemma_in_either(
            rendered_each(bases, shorter),
            rendered(bases, seq![layers.last()]),
            scene,
        );
        lemma_rendered(bases, layers.last(), scene);
        if exists|k: int|
            0 <= k < layers.len() && is_layer_over(bases, #[trigger] layers[k], scene) {
            let at = choose|k: int|
                0 <= k < layers.len() && is_layer_over(bases, #[trigger] layers[k], scene);
            if at < shorter.len() {
                assert(is_layer_over(bases, shorter[at], scene));
            }
        }
        if exists|k: int|
            0 <= k < shorter.len() && is_layer_over(bases, #[trigger] shorter[k], scene) {
            let at = choose|k: int|
                0 <= k < shorter.len() && is_layer_over(bases, #[trigger] shorter[k], scene);
            assert(is_layer_over(bases, layers[at], scene));
        }
        assert(layers[layers.len() - 1] == layers.last());
    }
}

/// Whether the scene is one of the layers over one of the bases.
pub open spec fn is_state(bases: Seq<Seq<char>>, layers: Seq<Seq<char>>, scene: Seq<char>) -> bool {
    exists|k: int| 0 <= k < layers.len() && is_layer_over(bases, #[trigger] layers[k], scene)
}

proof fn lemma_layer_over_last(bases: Seq<Seq<char>>, layer: Seq<char>, scene: Seq<char>)
    requires
        bases.len() > 0,
    ensures
        is_layer_over(bases, layer, scene) <==> is_layer_over(bases.drop_last(), layer, scene)
            || scene == layered(bases.last(), seq![layer]),
{
    let shorter = bases.drop_last();
    if is_layer_over(bases, layer, scene) {
        let at = choose|i: int|
            0 <= i < bases.len() && scene == layered(#[trigger] bases[i], seq![layer]);
        if at < shorter.len() {
            assert(scene == layered(shorter[at], seq![layer]));
        }
    }
    if is_layer_over(shorter, layer, scene) {
        let at = choose|i: int|
            0 <= i < shorter.len() && scene == layered(#[trigger] shorter[i], seq![layer]);
        assert(scene == layered(bases[at], seq![layer]));
    }
    assert(bases[bases.len() - 1] == bases.last());
}

/// Whether the scene is one of the layers over the base.
spec fn is_state_of(base: Seq<char>, layers: Seq<Seq<char>>, scene: Seq<char>) -> bool {
    exists|k: int| 0 <= k < layers.len() && scene == layered(base, seq![#[trigger] layers[k]])
}

proof fn lemma_under_each(base: Seq<char>, layers: Seq<Seq<char>>, scene: Seq<char>)
    ensures
        under_each(base, layers).contains(scene) <==> is_state_of(base, layers, scene),
{
    let added = under_each(base, layers);
    if added.contains(scene) {
        let at = choose|i: int| 0 <= i < added.len() && added[i] == scene;
        assert(scene == layered(base, seq![layers[at]]));
    }
    if is_state_of(base, layers, scene) {
        let k = choose|k: int|
            0 <= k < layers.len() && scene == layered(base, seq![#[trigger] layers[k]]);
        assert(added[k] == scene);
    }
}

proof fn lemma_states(bases: Seq<Seq<char>>, layers: Seq<Seq<char>>, scene: Seq<char>)
    ensures
        states_of(bases, layers).contains(scene) <==> is_state(bases, layers, scene),
    decreases bases.len(),
{
    if bases.len() > 0 {
        let shorter = bases.drop_last();
        lemma_states(shorter, layers, scene);
        lemma_in_either(states_of(shorter, layers), under_each(bases.last(), layers), scene);
        lemma_under_each(bases.last(), layers, scene);
        lemma_state_parts(bases, layers, scene);
    }
}

proof fn lemma_state_parts(bases: Seq<Seq<char>>, layers: Seq<Seq<char>>, scene: Seq<char>)
    requires
        bases.len() > 0,
    ensures
        is_state(bases, layers, scene) <==> is_state(bases.drop_last(), layers, scene)
            || is_state_of(bases.last(), layers, scene),
{
    let shorter = bases.drop_last();
    if is_state(bases, layers, scene) {
        let k = choose|k: int|
            0 <= k < layers.len() && is_layer_over(bases, #[trigger] layers[k], scene);
        lemma_layer_over_last(bases, layers[k], scene);
    }
    if is_state(shorter, layers, scene) {
        let k = choose|k: int|
            0 <= k < layers.len() && is_layer_over(shorter, #[trigger] layers[k], scene);
        lemma_layer_over_last(bases, layers[k], scene);
    }
    if is_state_of(bases.last(), layers, scene) {
        let k = choose|k: int|
            0 <= k < layers.len() && scene == layered(
                bases.last(),
                seq![#[trigger] layers[k]],
            );
        lemma_layer_over_last(bases, layers[k], scene);
        assert(is_layer_over(bases, layers[k], scene));
    }
}

/// Interface text is read on the surfaces, on hovered panel overlays, and on every interaction
/// layer over every surface.
pub proof fn lemma_text_scenes(
    bases: Vec<String>,
    hover: &str,
    layers: Vec<String>,
    backgrounds: Vec<String>,
    scene: Seq<char>,
)
    requires
        call_ensures(
            ui_backgrounds,
            (&bases, hover, &layers),
            Ok::<Vec<String>, Error>(backgrounds),
        ),
    ensures
        views(backgrounds@).no_duplicates(),
        views(backgrounds@).contains(scene) <==> {
            ||| views(bases@).contains(scene)
            ||| scene == hover@
            ||| is_state(views(bases@), views(layers@), scene)
        },
{
    let head = views(bases@).push(hover@);
    let states = states_of(views(bases@), views(layers@));
    lemma_without_repeats(head + states);
    lemma_in_either(head, states, scene);
    lemma_in_pushed(views(bases@), hover@, scene);
    lemma_states(views(bases@), views(layers@), scene);
}

/// The editor shows its canvas and the frame, and the active, the highlighted and the
/// debugger's line over the canvas; each of these once, and nothing else.
pub proof fn lemma_editor_scenes(
    surfaces: Surfaces,
    lines: EditorLines,
    bases: Vec<String>,
    scene: Seq<char>,
)
    requires
        call_ensures(editor_bases, (&surfaces, &lines), Ok::<Vec<String>, Error>(bases)),
    ensures
        views(bases@).no_duplicates(),
        views(bases@).contains(scene) <==> {
            ||| scene == surfaces.canvas@
            ||| scene == surfaces.chrome@
            ||| scene == layered(surfaces.canvas@, seq![lines.active@])
            ||| scene == layered(surfaces.canvas@, seq![lines.highlighted@])
            ||| scene == layered(surfaces.canvas@, seq![lines.debugger@])
        },
{
    let all = seq![
        surfaces.canvas@,
        surfaces.chrome@,
        layered(surfaces.canvas@, seq![lines.active@]),
        layered(surfaces.canvas@, seq![lines.highlighted@]),
        layered(surfaces.canvas@, seq![lines.debugger@]),
    ];
    lemma_without_repeats(all);
    assert(views(bases@) == without_repeats(all));
    assert(all[0] == surfaces.canvas@ && all[1] == surfaces.chrome@);
    assert(all[2] == layered(surfaces.canvas@, seq![lines.active@]));
    assert(all[3] == layered(surfaces.canvas@, seq![lines.highlighted@]));
    assert(all[4] == layered(surfaces.canvas@, seq![lines.debugger@]));
    if all.contains(scene) {
        let at = choose|i: int| 0 <= i < all.len() && all[i] == scene;
        assert(0 <= at < 5);
    }
}

/// The terminal shows text on its canvas and on the selection over it, focused and not.
pub proof fn lemma_terminal_scenes(
    canvas: &str,
    selection: &str,
    unfocused: &str,
    backgrounds: Vec<String>,
    scene: Seq<char>,
)
    requires
        call_ensures(
            terminal_backgrounds,
            (canvas, selection, unfocused),
            Ok::<Vec<String>, Error>(backgrounds),
        ),
    ensures
        views(backgrounds@).no_duplicates(),
        views(backgrounds@).contains(scene) <==> scene == canvas@ || scene == layered(
            canvas@,
            seq![selection@],
        ) || scene == layered(canvas@, seq![unfocused@]),
{
    let all = seq![
        canvas@,
        layered(canvas@, seq![selection@]),
        layered(canvas@, seq![unfocused@]),
    ];
    lemma_without_repeats(all);
    assert(all[0] == canvas@);
    assert(all[1] == layered(canvas@, seq![selection@]));
    assert(all[2] == layered(canvas@, seq![unfocused@]));
    if all.contains(scene) {
        let at = choose|i: int| 0 <= i < all.len() && all[i] == scene;
        assert(0 <= at < 3);
    }
}

/// Interaction states are painted on the backgrounds, on panel overlays and on the canvas;
/// text is read there and on inactive tabs; and semantic colors are read on inactive tabs only
/// where the frame tells them from active ones.
pub proof fn lemma_interface_scenes(
    backgrounds: Vec<String>,
    panel_overlay: &str,
    canvas: &str,
    tab_inactive: &str,
    chrome_separates: bool,
    interactions: Vec<String>,
    texts: Vec<String>,
    semantic: Vec<String>,
    scene: Seq<char>,
)
    requires
        call_ensures(interaction_bases, (&backgrounds, panel_overlay, canvas), interactions),
        call_ensures(text_bases, (&interactions, tab_inactive), texts),
        call_ensures(semantic_bases, (&interactions, tab_inactive, chrome_separates), semantic),
    ensures
        views(interactions@).contains(scene) <==> views(backgrounds@).contains(scene) || scene
            == panel_overlay@ || scene == canvas@,
        views(texts@).contains(scene) <==> views(interactions@).contains(scene) || scene
            == tab_inactive@,
        views(semantic@).contains(scene) <==> views(interactions@).contains(scene) || (
        chrome_separates && scene == tab_inactive@),
{
    let all = views(backgrounds@).push(panel_overlay@).push(canvas@);
    lemma_without_repeats(all);
    lemma_in_pushed(views(backgrounds@).push(panel_overlay@), canvas@, scene);
    lemma_in_pushed(views(backgrounds@), panel_overlay@, scene);
    let tabs = views(interactions@).push(tab_inactive@);
    lemma_without_repeats(tabs);
    lemma_in_pushed(views(interactions@), tab_inactive@, scene);
    lemma_without_repeats(views(interactions@));
}

/// Syntax is read on the bases and the text backgrounds of the editor, and on the selection
/// over the latter, focused and not; a cursor is seen on the backgrounds and on both
/// selections over them.
pub proof fn lemma_selected_scenes(
    bases: Vec<String>,
    backgrounds: Vec<String>,
    selection: &str,
    unfocused: &str,
    contexts: Vec<String>,
    cursors: Vec<String>,
    scene: Seq<char>,
)
    requires
        call_ensures(
            syntax_contexts,
            (&bases, &backgrounds, selection, unfocused),
            Ok::<Vec<String>, Error>(contexts),
        ),
        call_ensures(
            cursor_backgrounds,
            (&backgrounds, selection, unfocused),
            Ok::<Vec<String>, Error>(cursors),
        ),
    ensures
        views(contexts@).contains(scene) <==> {
            ||| views(bases@).contains(scene)
            ||| views(backgrounds@).contains(scene)
            ||| is_layer_over(views(backgrounds@), selection@, scene)
            ||| is_layer_over(views(backgrounds@), unfocused@, scene)
        },
        views(cursors@).contains(scene) <==> {
            ||| views(backgrounds@).contains(scene)
            ||| is_layer_over(views(backgrounds@), selection@, scene)
            ||| is_layer_over(views(backgrounds@), unfocused@, scene)
        },
{
    let own = views(bases@);
    let texts = views(backgrounds@);
    let focused = rendered(texts, seq![selection@]);
    let faint = rendered(texts, seq![unfocused@]);
    lemma_without_repeats(own + texts + focused + faint);
    lemma_in_either(own + texts + focused, faint, scene);
    lemma_in_either(own + texts, focused, scene);
    lemma_in_either(own, texts, scene);
    lemma_rendered(texts, selection@, scene);
    lemma_rendered(texts, unfocused@, scene);
    let states = states_of(texts, seq![selection@, unfocused@]);
    lemma_without_repeats(texts + states);
    lemma_in_either(texts, states, scene);
    let layers = seq![selection@, unfocused@];
    lemma_states(texts, layers, scene);
    if is_layer_over(texts, layers[0], scene) || is_layer_over(texts, layers[1], scene) {
        assert(is_state(texts, layers, scene));
    }
}

/// The foreground of a status is read on the interactive surfaces, the other backgrounds, the
/// background of the status and whatever else is given.
pub proof fn lemma_status_scenes(
    interactions: Vec<String>,
    backgrounds: Vec<String>,
    status_background: &str,
    more: Vec<String>,
    all: Vec<String>,
    scene: Seq<char>,
)
    requires
        call_ensures(
            status_foreground_backgrounds,
            (&interactions, &backgrounds, status_background, &more),
            all,
        ),
    ensures
        views(all@).contains(scene) <==> {
            ||| views(interactions@).contains(scene)
            ||| views(backgrounds@).contains(scene)
            ||| scene == status_background@
            ||| views(more@).contains(scene)
        },
{
    let first = views(interactions@) + views(backgrounds@);
    let second = first.push(status_background@);
    lemma_without_repeats(second + views(more@));
    lemma_in_either(second, views(more@), scene);
    lemma_in_pushed(first, status_background@, scene);
    lemma_in_either(views(interactions@), views(backgrounds@), scene);
}

} // verus!
