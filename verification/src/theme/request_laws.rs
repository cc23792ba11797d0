//! What each fit of the theme builder asks for.

use crate::palette::ResolvedPalette;
use crate::scalar::Scalar;
use crate::search::request::{
    MetricBand, OverlayFitRequest, ReadableForeground, Reference, RuntimeState, StateFitRequest,
};
use crate::text::views;
use crate::theme::requests::{
    active_search_match, change_fill, drop_target, editor_line, element_active, element_hover,
    element_selected, focus_border, further_selection, ghost_active, ghost_hover, highlight,
    inactive_tab, mode_background, panel_guide, panel_overlay, panel_overlay_hover,
    player_background, reference_views, search_match, selection, status_background,
    stronger_panel_guide, thumb, HighlightRole, InteractionBands, OverlayFit, StateFit, VisualBand,
};
use crate::theme::scenes::Surfaces;
use crate::theme::style::SemanticColors;
use vstd::prelude::*;

verus! {

/// Whether the state lies on the one background alone.
pub open spec fn state_lies_on(request: StateFitRequest, background: Seq<char>) -> bool {
    request.backgrounds@.len() == 1 && request.backgrounds@[0]@ == background
}

/// Whether the fill lies on the one background alone.
pub open spec fn fill_lies_on(request: OverlayFitRequest, background: Seq<char>) -> bool {
    request.backgrounds@.len() == 1 && request.backgrounds@[0]@ == background
}

/// Whether the fit is held to the band.
pub open spec fn keeps_band(contrast: MetricBand, delta_e: MetricBand, band: VisualBand) -> bool {
    contrast == band.contrast && delta_e == band.delta_e
}

/// Whether the fit is held to the floors of the band and to nothing else of it.
pub open spec fn keeps_only_floors(
    contrast: MetricBand,
    delta_e: MetricBand,
    band: VisualBand,
) -> bool {
    &&& contrast.minimum == band.contrast.minimum
    &&& contrast.preferred is None && contrast.maximum is None
    &&& delta_e.minimum == band.delta_e.minimum
    &&& delta_e.preferred is None && delta_e.maximum is None
}

/// Whether the reference is the color of a neighboring state, at the distance that
/// neighbors keep.
pub open spec fn is_neighbor(
    reference: Reference,
    color: Seq<char>,
    bands: InteractionBands,
) -> bool {
    &&& reference.color@ == color
    &&& reference.contrast == bands.adjacent_contrast
    &&& reference.delta_e == bands.adjacent_delta_e
}

/// Whether the fill keeps exactly this text readable.
pub open spec fn keeps_text(request: OverlayFitRequest, text: ReadableForeground) -> bool {
    &&& request.readable_foregrounds@.len() == 1
    &&& request.readable_foregrounds@[0].color@ == text.color@
    &&& request.readable_foregrounds@[0].contrast == text.contrast
}

/// Whether the two references say the same.
pub open spec fn is_reference(one: Reference, other: Reference) -> bool {
    one.color@ == other.color@ && one.contrast == other.contrast && one.delta_e == other.delta_e
}

/// The lists of a request, one by one.
proof fn lemma_state_lists(request: StateFitRequest)
    ensures
        views(request.backgrounds@).len() == request.backgrounds@.len(),
        forall|i: int|
            0 <= i < request.backgrounds@.len() ==> (#[trigger] request.backgrounds@[i])@ == views(
                request.backgrounds@,
            )[i],
        reference_views(request.references@).len() == request.references@.len(),
        forall|i: int|
            0 <= i < request.references@.len() ==> (#[trigger] request.references@[i])@
                == reference_views(request.references@)[i],
{
}

/// The lists of a request, one by one.
proof fn lemma_fill_lists(request: OverlayFitRequest)
    ensures
        views(request.backgrounds@).len() == request.backgrounds@.len(),
        forall|i: int|
            0 <= i < request.backgrounds@.len() ==> (#[trigger] request.backgrounds@[i])@ == views(
                request.backgrounds@,
            )[i],
        reference_views(request.rendered_references@).len()
            == request.rendered_references@.len(),
        forall|i: int|
            0 <= i < request.rendered_references@.len() ==> (
            #[trigger] request.rendered_references@[i])@ == reference_views(
                request.rendered_references@,
            )[i],
{
}

/// An inactive tab starts from the frame and lies on the canvas; a panel overlay starts from
/// the elevated surface and lies on the panel; a guide in a panel starts from the muted
/// color. All are held to their band, and tab and overlay keep text readable.
pub proof fn lemma_resting_states(
    palette: ResolvedPalette,
    surfaces: Surfaces,
    band: VisualBand,
    readable: Reference,
    tab: StateFit,
    overlay: StateFit,
    guide: StateFit,
)
    requires
        call_ensures(inactive_tab, (&surfaces, band, &readable), tab),
        call_ensures(panel_overlay, (&surfaces, band, &readable), overlay),
        call_ensures(panel_guide, (&palette, &surfaces, band), guide),
    ensures
        tab.seed@ == surfaces.chrome@,
        state_lies_on(tab.request, surfaces.canvas@),
        keeps_band(tab.request.contrast, tab.request.delta_e, band),
        tab.request.references@.len() == 1 && is_reference(tab.request.references@[0], readable),
        overlay.seed@ == surfaces.elevated@,
        state_lies_on(overlay.request, surfaces.surface@),
        keeps_band(overlay.request.contrast, overlay.request.delta_e, band),
        overlay.request.references@.len() == 1 && is_reference(
            overlay.request.references@[0],
            readable,
        ),
        guide.seed@ == palette.colors@["muted"@]@,
        state_lies_on(guide.request, surfaces.surface@),
        keeps_band(guide.request.contrast, guide.request.delta_e, band),
        guide.request.references@.len() == 0,
{
    lemma_state_lists(tab.request);
    lemma_state_lists(overlay.request);
    lemma_state_lists(guide.request);
}

/// A stronger state stands apart from the weaker one: a hovered panel overlay, which starts
/// from the overlay, from that overlay, and a stronger guide, which starts from the accent,
/// from the weaker guide.
pub proof fn lemma_stronger_states(
    palette: ResolvedPalette,
    surfaces: Surfaces,
    band: VisualBand,
    bands: InteractionBands,
    overlay: &str,
    weaker: &str,
    readable: Reference,
    hovered: StateFit,
    guide: StateFit,
)
    requires
        call_ensures(panel_overlay_hover, (&surfaces, bands, overlay, &readable), hovered),
        call_ensures(stronger_panel_guide, (&palette, &surfaces, band, bands, weaker), guide),
    ensures
        hovered.seed@ == overlay@,
        state_lies_on(hovered.request, surfaces.surface@),
        keeps_band(hovered.request.contrast, hovered.request.delta_e, bands.hover),
        hovered.request.references@.len() == 2,
        is_neighbor(hovered.request.references@[0], overlay@, bands),
        is_reference(hovered.request.references@[1], readable),
        guide.seed@ == palette.colors@["accent"@]@,
        state_lies_on(guide.request, surfaces.surface@),
        keeps_band(guide.request.contrast, guide.request.delta_e, band),
        guide.request.references@.len() == 1,
        is_neighbor(guide.request.references@[0], weaker@, bands),
{
    lemma_state_lists(hovered.request);
    lemma_state_lists(guide.request);
    assert(hovered.request.references@[0]@.color == overlay@);
    assert(hovered.request.references@[1]@ == readable@);
    assert(guide.request.references@[0]@.color == weaker@);
}

/// The border of the focus starts from the accent, is seen on every background given, and
/// stands apart from the structural borders.
pub proof fn lemma_focus_border(
    backgrounds: Vec<String>,
    semantic: SemanticColors,
    band: VisualBand,
    bands: InteractionBands,
    fit: StateFit,
)
    requires
        call_ensures(focus_border, (&backgrounds, &semantic, band, bands), fit),
    ensures
        fit.seed@ == semantic.accent@,
        views(fit.request.backgrounds@) == views(backgrounds@),
        keeps_band(fit.request.contrast, fit.request.delta_e, band),
        fit.request.references@.len() == 1,
        is_neighbor(fit.request.references@[0], semantic.structural@, bands),
{
    lemma_state_lists(fit.request);
    assert(fit.request.references@[0]@.color == semantic.structural@);
}

/// The background of a status lies on the panel, looks selected, has at least the chroma
/// asked for, keeps the primary text readable and stands apart from the structural
/// borders.
pub proof fn lemma_status_background(
    seed: &str,
    surfaces: Surfaces,
    semantic: SemanticColors,
    bands: InteractionBands,
    text_contrast: Scalar,
    text_delta_e: Scalar,
    chroma: Scalar,
    fit: StateFit,
)
    requires
        call_ensures(
            status_background,
            (seed, &surfaces, &semantic, bands, text_contrast, text_delta_e, chroma),
            fit,
        ),
    ensures
        fit.seed@ == seed@,
        state_lies_on(fit.request, surfaces.surface@),
        keeps_band(fit.request.contrast, fit.request.delta_e, bands.selected),
        fit.request.minimum_chroma == chroma,
        fit.request.references@.len() == 2,
        fit.request.references@[0].color@ == semantic.primary@,
        fit.request.references@[0].contrast == text_contrast,
        fit.request.references@[0].delta_e == text_delta_e,
        is_neighbor(fit.request.references@[1], semantic.structural@, bands),
{
    lemma_state_lists(fit.request);
    assert(fit.request.references@[0]@.color == semantic.primary@);
    assert(fit.request.references@[1]@.color == semantic.structural@);
}

/// An editing mode looks selected on the frame. The background of a player lies on the canvas,
/// stands apart from the player's cursor, and is held to the floors of a hovered state.
pub proof fn lemma_mode_and_player_backgrounds(
    seed: &str,
    surfaces: Surfaces,
    bands: InteractionBands,
    cursor: Reference,
    mode: StateFit,
    player: StateFit,
)
    requires
        call_ensures(mode_background, (seed, &surfaces, bands), mode),
        call_ensures(player_background, (seed, &surfaces, bands, &cursor), player),
    ensures
        mode.seed@ == seed@ && player.seed@ == seed@,
        state_lies_on(mode.request, surfaces.chrome@),
        keeps_band(mode.request.contrast, mode.request.delta_e, bands.selected),
        mode.request.references@.len() == 0,
        state_lies_on(player.request, surfaces.canvas@),
        keeps_only_floors(player.request.contrast, player.request.delta_e, bands.hover),
        player.request.references@.len() == 1,
        is_reference(player.request.references@[0], cursor),
{
    lemma_state_lists(mode.request);
    lemma_state_lists(player.request);
    assert(player.request.references@[0]@ == cursor@);
}

/// Hovered and active controls start from the panel and are also seen fainter; the active one
/// stands apart from the hovered one, in both strengths.
pub proof fn lemma_element_fills(
    surfaces: Surfaces,
    interactions: Vec<String>,
    bands: InteractionBands,
    text: ReadableForeground,
    runtime: RuntimeState,
    hover: &str,
    fainter: &str,
    base_step: Scalar,
    hovered: OverlayFit,
    active: OverlayFit,
)
    requires
        call_ensures(element_hover, (&surfaces, &interactions, bands, &text, runtime), hovered),
        call_ensures(
            element_active,
            (&surfaces, &interactions, bands, &text, runtime, hover, fainter, base_step),
            active,
        ),
    ensures
        hovered.seed@ == surfaces.surface@ && active.seed@ == surfaces.surface@,
        views(hovered.request.backgrounds@) == views(interactions@),
        views(active.request.backgrounds@) == views(interactions@),
        keeps_band(hovered.request.contrast, hovered.request.delta_e, bands.hover),
        keeps_band(active.request.contrast, active.request.delta_e, bands.active),
        keeps_text(hovered.request, text) && keeps_text(active.request, text),
        hovered.request.runtime_state == Some(runtime),
        active.request.runtime_state == Some(runtime),
        hovered.request.rendered_references@.len() == 0,
        hovered.request.runtime_rendered_references@.len() == 0,
        active.request.rendered_references@.len() == 1,
        is_neighbor(active.request.rendered_references@[0], hover@, bands),
        active.request.runtime_rendered_references@.len() == 1,
        active.request.runtime_rendered_references@[0].color@ == fainter@,
        active.request.runtime_rendered_references@[0].contrast == bands.adjacent_contrast,
        active.request.runtime_rendered_references@[0].delta_e == bands.adjacent_delta_e,
        active.request.runtime_rendered_references@[0].base_step == base_step,
{
    lemma_fill_lists(hovered.request);
    lemma_fill_lists(active.request);
    assert(hovered.request.readable_foregrounds@[0]@ == text@);
    assert(active.request.readable_foregrounds@[0]@ == text@);
    assert(active.request.rendered_references@[0]@.color == hover@);
    assert(active.request.runtime_rendered_references@[0]@.base_step == base_step);
}

/// Controls without a surface of their own start from the canvas, and the active one stands
/// apart from the hovered one.
pub proof fn lemma_ghost_fills(
    surfaces: Surfaces,
    interactions: Vec<String>,
    bands: InteractionBands,
    text: ReadableForeground,
    hover: &str,
    hovered: OverlayFit,
    active: OverlayFit,
)
    requires
        call_ensures(ghost_hover, (&surfaces, &interactions, bands, &text), hovered),
        call_ensures(ghost_active, (&surfaces, &interactions, bands, &text, hover), active),
    ensures
        hovered.seed@ == surfaces.canvas@ && active.seed@ == surfaces.canvas@,
        views(hovered.request.backgrounds@) == views(interactions@),
        views(active.request.backgrounds@) == views(interactions@),
        keeps_band(hovered.request.contrast, hovered.request.delta_e, bands.hover),
        keeps_band(active.request.contrast, active.request.delta_e, bands.active),
        keeps_text(hovered.request, text) && keeps_text(active.request, text),
        hovered.request.runtime_state is None && active.request.runtime_state is None,
        hovered.request.rendered_references@.len() == 0,
        active.request.rendered_references@.len() == 1,
        is_neighbor(active.request.rendered_references@[0], hover@, bands),
{
    lemma_fill_lists(hovered.request);
    lemma_fill_lists(active.request);
    assert(hovered.request.readable_foregrounds@[0]@ == text@);
    assert(active.request.readable_foregrounds@[0]@ == text@);
    assert(active.request.rendered_references@[0]@.color == hover@);
}

/// A selected control starts from the palette's selection, looks selected, is also seen
/// fainter, and stands apart from both kinds of active control.
pub proof fn lemma_selected_fill(
    palette: ResolvedPalette,
    interactions: Vec<String>,
    bands: InteractionBands,
    text: ReadableForeground,
    runtime: RuntimeState,
    element: &str,
    ghost: &str,
    fit: OverlayFit,
)
    requires
        call_ensures(
            element_selected,
            (&palette, &interactions, bands, &text, runtime, element, ghost),
            fit,
        ),
    ensures
        fit.seed@ == palette.colors@["selection"@]@,
        views(fit.request.backgrounds@) == views(interactions@),
        keeps_band(fit.request.contrast, fit.request.delta_e, bands.selected),
        keeps_text(fit.request, text),
        fit.request.runtime_state == Some(runtime),
        fit.request.rendered_references@.len() == 2,
        is_neighbor(fit.request.rendered_references@[0], element@, bands),
        is_neighbor(fit.request.rendered_references@[1], ghost@, bands),
{
    lemma_fill_lists(fit.request);
    assert(fit.request.readable_foregrounds@[0]@ == text@);
    assert(fit.request.rendered_references@[0]@.color == element@);
    assert(fit.request.rendered_references@[1]@.color == ghost@);
}

/// Lines of the editor lie on the canvas in their whole band; highlights are held to floors
/// alone. Both keep text readable and stand apart from another one where it is given.
pub proof fn lemma_editor_fills(
    seed: &str,
    surfaces: Surfaces,
    bases: Vec<String>,
    band: VisualBand,
    text: ReadableForeground,
    other: Option<&Reference>,
    line: OverlayFit,
    mark: OverlayFit,
)
    requires
        call_ensures(editor_line, (seed, &surfaces, band, &text, other), line),
        call_ensures(highlight, (seed, &bases, band, &text, other), mark),
    ensures
        line.seed@ == seed@ && mark.seed@ == seed@,
        fill_lies_on(line.request, surfaces.canvas@),
        views(mark.request.backgrounds@) == views(bases@),
        keeps_band(line.request.contrast, line.request.delta_e, band),
        keeps_only_floors(mark.request.contrast, mark.request.delta_e, band),
        keeps_text(line.request, text) && keeps_text(mark.request, text),
        other is None ==> line.request.rendered_references@.len() == 0
            && mark.request.rendered_references@.len() == 0,
        other matches Some(reference) ==> {
            &&& line.request.rendered_references@.len() == 1
            &&& is_reference(line.request.rendered_references@[0], *reference)
            &&& mark.request.rendered_references@.len() == 1
            &&& is_reference(mark.request.rendered_references@[0], *reference)
        },
{
    lemma_fill_lists(line.request);
    lemma_fill_lists(mark.request);
    assert(line.request.readable_foregrounds@[0]@ == text@);
    assert(mark.request.readable_foregrounds@[0]@ == text@);
    if let Some(reference) = other {
        assert(line.request.rendered_references@[0]@ == reference@);
        assert(mark.request.rendered_references@[0]@ == reference@);
    }
}

/// Search matches are yellow and the active one has the accent, and stands apart from the
/// others where they are given. A highlight of reads has the accent too, one of writes is
/// orange, one of brackets cyan, and what was yanked is yellow.
pub proof fn lemma_search_and_highlight_seeds(
    semantic: SemanticColors,
    bases: Vec<String>,
    band: VisualBand,
    text: ReadableForeground,
    others: Option<&Reference>,
    found: OverlayFit,
    active: OverlayFit,
)
    requires
        call_ensures(search_match, (&semantic, &bases, band, &text), found),
        call_ensures(active_search_match, (&semantic, &bases, band, &text, others), active),
    ensures
        found.seed@ == semantic.yellow@,
        active.seed@ == semantic.accent@,
        views(found.request.backgrounds@) == views(bases@),
        views(active.request.backgrounds@) == views(bases@),
        keeps_only_floors(found.request.contrast, found.request.delta_e, band),
        keeps_only_floors(active.request.contrast, active.request.delta_e, band),
        keeps_text(found.request, text) && keeps_text(active.request, text),
        found.request.rendered_references@.len() == 0,
        others matches Some(reference) ==> active.request.rendered_references@.len() == 1
            && is_reference(active.request.rendered_references@[0], *reference),
        HighlightRole::DocumentRead.seed_view(semantic) == semantic.accent@,
        HighlightRole::DocumentWrite.seed_view(semantic) == semantic.orange@,
        HighlightRole::DocumentBracket.seed_view(semantic) == semantic.cyan@,
        HighlightRole::Yank.seed_view(semantic) == semantic.yellow@,
{
    lemma_fill_lists(found.request);
    lemma_fill_lists(active.request);
    assert(found.request.readable_foregrounds@[0]@ == text@);
    assert(active.request.readable_foregrounds@[0]@ == text@);
    if let Some(reference) = others {
        assert(active.request.rendered_references@[0]@ == reference@);
    }
}

/// A fill of a change is held to floors alone, keeps text readable where text is given, and
/// stays close to its seed exactly where that is asked for. A drop target is an accent on
/// the panel that looks selected.
pub proof fn lemma_change_and_drop_fills(
    seed: &str,
    bases: Vec<String>,
    band: VisualBand,
    text: Option<&ReadableForeground>,
    prefers_source: bool,
    semantic: SemanticColors,
    surfaces: Surfaces,
    bands: InteractionBands,
    change: OverlayFit,
    target: OverlayFit,
)
    requires
        call_ensures(change_fill, (seed, &bases, band, text, prefers_source), change),
        call_ensures(drop_target, (&semantic, &surfaces, bands), target),
    ensures
        change.seed@ == seed@,
        views(change.request.backgrounds@) == views(bases@),
        keeps_only_floors(change.request.contrast, change.request.delta_e, band),
        change.request.prefer_source_fidelity == prefers_source,
        text matches Some(text) ==> keeps_text(change.request, *text),
        text is None ==> change.request.readable_foregrounds@.len() == 0,
        target.seed@ == semantic.accent@,
        fill_lies_on(target.request, surfaces.surface@),
        keeps_band(target.request.contrast, target.request.delta_e, bands.selected),
        !target.request.prefer_source_fidelity,
{
    lemma_fill_lists(change.request);
    lemma_fill_lists(target.request);
    if let Some(text) = text {
        assert(change.request.readable_foregrounds@[0]@ == text@);
    }
}

/// A selection is seen on its backgrounds, keeps text readable there and on more, is also
/// seen fainter and stands apart from the others. That of a further player starts from the
/// player's cursor and is held to the floors of a selected state.
pub proof fn lemma_selections(
    seed: &str,
    backgrounds: Vec<String>,
    text_backgrounds: Vec<String>,
    band: VisualBand,
    bands: InteractionBands,
    text: ReadableForeground,
    runtime: RuntimeState,
    others: Vec<Reference>,
    first: OverlayFit,
    further: OverlayFit,
)
    requires
        call_ensures(
            selection,
            (seed, &backgrounds, &text_backgrounds, band, &text, runtime, others),
            first,
        ),
        call_ensures(
            further_selection,
            (seed, &backgrounds, &text_backgrounds, bands, &text, runtime, others),
            further,
        ),
    ensures
        first.seed@ == seed@ && further.seed@ == seed@,
        views(first.request.backgrounds@) == views(backgrounds@),
        views(further.request.backgrounds@) == views(backgrounds@),
        views(first.request.readability_backgrounds@) == views(text_backgrounds@),
        views(further.request.readability_backgrounds@) == views(text_backgrounds@),
        keeps_band(first.request.contrast, first.request.delta_e, band),
        keeps_only_floors(further.request.contrast, further.request.delta_e, bands.selected),
        keeps_text(first.request, text) && keeps_text(further.request, text),
        first.request.runtime_state == Some(runtime),
        further.request.runtime_state == Some(runtime),
        first.request.rendered_references@.len() == others@.len(),
        forall|i: int|
            0 <= i < others@.len() ==> is_reference(
                #[trigger] first.request.rendered_references@[i],
                others@[i],
            ),
        further.request.rendered_references@.len() == others@.len(),
        forall|i: int|
            0 <= i < others@.len() ==> is_reference(
                #[trigger] further.request.rendered_references@[i],
                others@[i],
            ),
{
    lemma_fill_lists(first.request);
    lemma_fill_lists(further.request);
    assert(first.request.readable_foregrounds@[0]@ == text@);
    assert(further.request.readable_foregrounds@[0]@ == text@);
    assert(reference_views(others@).len() == others@.len());
    assert forall|i: int| 0 <= i < others@.len() implies is_reference(
        #[trigger] first.request.rendered_references@[i],
        others@[i],
    ) by {
        assert(reference_views(others@)[i] == others@[i]@);
        assert(first.request.rendered_references@[i]@ == others@[i]@);
    }
    assert forall|i: int| 0 <= i < others@.len() implies is_reference(
        #[trigger] further.request.rendered_references@[i],
        others@[i],
    ) by {
        assert(reference_views(others@)[i] == others@[i]@);
        assert(further.request.rendered_references@[i]@ == others@[i]@);
    }
}

/// A scroll thumb starts from the primary text color, is held to its band on every context,
/// and stands apart from the weaker thumb where there is one.
pub proof fn lemma_thumbs(
    semantic: SemanticColors,
    contexts: Vec<String>,
    band: VisualBand,
    bands: InteractionBands,
    weaker: Option<&str>,
    fit: OverlayFit,
)
    requires
        call_ensures(thumb, (&semantic, &contexts, band, bands, weaker), fit),
    ensures
        fit.seed@ == semantic.primary@,
        views(fit.request.backgrounds@) == views(contexts@),
        keeps_band(fit.request.contrast, fit.request.delta_e, band),
        weaker is None ==> fit.request.rendered_references@.len() == 0,
        weaker matches Some(color) ==> fit.request.rendered_references@.len() == 1 && is_neighbor(
            fit.request.rendered_references@[0],
            color@,
            bands,
        ),
{
    lemma_fill_lists(fit.request);
    if let Some(color) = weaker {
        assert(fit.request.rendered_references@[0]@.color == color@);
    }
}

} // verus!
