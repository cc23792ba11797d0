//! What each role is fitted from, on and apart from.
//!
//! Bands are measured numbers; which seed a role starts from, which backgrounds it is
//! painted on and which colors it stands apart from is decided here.

use crate::palette::ResolvedPalette;
use crate::scalar::Scalar;
use crate::search::request::{
    MetricBand, OverlayFitRequest, ReadableForeground, Reference, RuntimeReference, RuntimeState,
    StateFitRequest,
};
use crate::text::views;
use crate::theme::choices::color;
use crate::theme::scenes::Surfaces;
use crate::theme::style::SemanticColors;
use vstd::prelude::*;

verus! {

/// How far a role stands out from its backgrounds.
#[derive(Clone, Copy, Debug)]
pub struct VisualBand {
    pub contrast: MetricBand,
    pub delta_e: MetricBand,
}

impl VisualBand {
    /// The band without its preferences and ceilings.
    pub open spec fn floors(self) -> VisualBand {
        VisualBand {
            contrast: MetricBand {
                minimum: self.contrast.minimum,
                preferred: None,
                maximum: None,
            },
            delta_e: MetricBand { minimum: self.delta_e.minimum, preferred: None, maximum: None },
        }
    }

    fn only_floors(self) -> (band: VisualBand)
        ensures
            band == self.floors(),
    {
        VisualBand {
            contrast: MetricBand::floor(self.contrast.minimum),
            delta_e: MetricBand::floor(self.delta_e.minimum),
        }
    }
}

/// How far interaction states stand out, and how far each stands apart from the one
/// before it.
#[derive(Clone, Copy, Debug)]
pub struct InteractionBands {
    pub hover: VisualBand,
    pub active: VisualBand,
    pub selected: VisualBand,
    pub adjacent_contrast: Scalar,
    pub adjacent_delta_e: Scalar,
}

/// What a [`Reference`] says.
pub struct ReferenceView {
    pub color: Seq<char>,
    pub contrast: Scalar,
    pub delta_e: Scalar,
}

impl View for Reference {
    type V = ReferenceView;

    open spec fn view(&self) -> ReferenceView {
        ReferenceView { color: self.color@, contrast: self.contrast, delta_e: self.delta_e }
    }
}

/// What references say.
pub open spec fn reference_views(references: Seq<Reference>) -> Seq<ReferenceView> {
    references.map_values(|reference: Reference| reference@)
}

/// What a [`RuntimeReference`] says.
pub struct RuntimeReferenceView {
    pub apart: ReferenceView,
    pub base_step: Scalar,
}

impl View for RuntimeReference {
    type V = RuntimeReferenceView;

    open spec fn view(&self) -> RuntimeReferenceView {
        RuntimeReferenceView {
            apart: ReferenceView {
                color: self.color@,
                contrast: self.contrast,
                delta_e: self.delta_e,
            },
            base_step: self.base_step,
        }
    }
}

impl View for ReadableForeground {
    type V = (Seq<char>, Scalar);

    open spec fn view(&self) -> (Seq<char>, Scalar) {
        (self.color@, self.contrast)
    }
}

impl InteractionBands {
    /// Standing apart from a neighboring color.
    pub open spec fn apart(self, color: Seq<char>) -> ReferenceView {
        ReferenceView { color, contrast: self.adjacent_contrast, delta_e: self.adjacent_delta_e }
    }

    /// Standing apart from a neighboring color.
    pub fn adjacent(self, color: &str) -> (reference: Reference)
        ensures
            reference@ == self.apart(color@),
    {
        Reference {
            color: color.to_owned(),
            contrast: self.adjacent_contrast,
            delta_e: self.adjacent_delta_e,
        }
    }
}

/// An opaque state to be fitted.
#[derive(Debug)]
pub struct StateFit {
    pub seed: String,
    pub request: StateFitRequest,
}

/// What a [`StateFit`] says.
pub struct StateFitView {
    pub seed: Seq<char>,
    pub backgrounds: Seq<Seq<char>>,
    pub band: VisualBand,
    pub minimum_chroma: Scalar,
    pub references: Seq<ReferenceView>,
}

impl View for StateFit {
    type V = StateFitView;

    open spec fn view(&self) -> StateFitView {
        StateFitView {
            seed: self.seed@,
            backgrounds: views(self.request.backgrounds@),
            band: VisualBand { contrast: self.request.contrast, delta_e: self.request.delta_e },
            minimum_chroma: self.request.minimum_chroma,
            references: reference_views(self.request.references@),
        }
    }
}

/// A state of any chroma.
pub open spec fn state_of(
    seed: Seq<char>,
    backgrounds: Seq<Seq<char>>,
    band: VisualBand,
    references: Seq<ReferenceView>,
) -> StateFitView {
    StateFitView { seed, backgrounds, band, minimum_chroma: Scalar { bits: 0 }, references }
}

fn copies(texts: &Vec<String>) -> (copy: Vec<String>)
    ensures
        views(copy@) == views(texts@),
{
    let mut copy: Vec<String> = Vec::new();
    let mut index: usize = 0;
    while index < texts.len()
        invariant
            index <= texts@.len(),
            views(copy@) == views(texts@).take(index as int),
        decreases texts@.len() - index,
    {
        let ghost before = views(copy@);
        copy.push(texts[index].clone());
        assert(views(copy@) =~= before.push(texts@[index as int]@));
        index += 1;
        assert(views(copy@) =~= views(texts@).take(index as int));
    }
    assert(views(copy@) =~= views(texts@));
    copy
}

fn only(text: &str) -> (texts: Vec<String>)
    ensures
        views(texts@) == seq![text@],
{
    let texts = vec![text.to_owned()];
    assert(views(texts@) =~= seq![text@]);
    texts
}

fn copy_reference(reference: &Reference) -> (copy: Reference)
    ensures
        copy@ == reference@,
{
    Reference {
        color: reference.color.clone(),
        contrast: reference.contrast,
        delta_e: reference.delta_e,
    }
}

fn none() -> (references: Vec<Reference>)
    ensures
        reference_views(references@) == Seq::<ReferenceView>::empty(),
{
    let references: Vec<Reference> = Vec::new();
    assert(reference_views(references@) =~= Seq::<ReferenceView>::empty());
    references
}

fn one(reference: Reference) -> (references: Vec<Reference>)
    ensures
        reference_views(references@) == seq![reference@],
{
    let references = vec![reference];
    assert(reference_views(references@) =~= seq![reference@]);
    references
}

fn two(first: Reference, second: Reference) -> (references: Vec<Reference>)
    ensures
        reference_views(references@) == seq![first@, second@],
{
    let references = vec![first, second];
    assert(reference_views(references@) =~= seq![first@, second@]);
    references
}

fn state(seed: &str, backgrounds: Vec<String>, band: VisualBand, references: Vec<Reference>) -> (fit:
    StateFit)
    ensures
        fit@ == state_of(seed@, views(backgrounds@), band, reference_views(references@)),
{
    let request = StateFitRequest {
        backgrounds,
        contrast: band.contrast,
        delta_e: band.delta_e,
        minimum_chroma: Scalar { bits: 0 },
        references,
    };
    StateFit { seed: seed.to_owned(), request }
}

/// Inactive tabs start from the chrome and lie on the canvas.
pub fn inactive_tab(surfaces: &Surfaces, band: VisualBand, readable: &Reference) -> (fit: StateFit)
    ensures
        fit@ == state_of(surfaces.chrome@, seq![surfaces.canvas@], band, seq![readable@]),
{
    state(
        surfaces.chrome.as_str(),
        only(surfaces.canvas.as_str()),
        band,
        one(copy_reference(readable)),
    )
}

/// Panel overlays start from the elevated surface and lie on the panel.
pub fn panel_overlay(surfaces: &Surfaces, band: VisualBand, readable: &Reference) -> (fit: StateFit)
    ensures
        fit@ == state_of(surfaces.elevated@, seq![surfaces.surface@], band, seq![readable@]),
{
    state(
        surfaces.elevated.as_str(),
        only(surfaces.surface.as_str()),
        band,
        one(copy_reference(readable)),
    )
}

/// A hovered panel overlay stands apart from the overlay itself.
pub fn panel_overlay_hover(
    surfaces: &Surfaces,
    bands: InteractionBands,
    overlay: &str,
    readable: &Reference,
) -> (fit: StateFit)
    ensures
        fit@ == state_of(
            overlay@,
            seq![surfaces.surface@],
            bands.hover,
            seq![bands.apart(overlay@), readable@],
        ),
{
    state(
        overlay,
        only(surfaces.surface.as_str()),
        bands.hover,
        two(bands.adjacent(overlay), copy_reference(readable)),
    )
}

/// Panel guides start from the muted color.
pub fn panel_guide(palette: &ResolvedPalette, surfaces: &Surfaces, band: VisualBand) -> (fit:
    StateFit)
    requires
        palette.colors@.contains_key("muted"@),
    ensures
        fit@ == state_of(
            palette.colors@["muted"@]@,
            seq![surfaces.surface@],
            band,
            Seq::empty(),
        ),
{
    state(color(palette, "muted"), only(surfaces.surface.as_str()), band, none())
}

/// A stronger panel guide starts from the accent and stands apart from the weaker one.
pub fn stronger_panel_guide(
    palette: &ResolvedPalette,
    surfaces: &Surfaces,
    band: VisualBand,
    bands: InteractionBands,
    weaker: &str,
) -> (fit: StateFit)
    requires
        palette.colors@.contains_key("accent"@),
    ensures
        fit@ == state_of(
            palette.colors@["accent"@]@,
            seq![surfaces.surface@],
            band,
            seq![bands.apart(weaker@)],
        ),
{
    state(
        color(palette, "accent"),
        only(surfaces.surface.as_str()),
        band,
        one(bands.adjacent(weaker)),
    )
}

/// The focus border is an accent that stands apart from the borders around it.
pub fn focus_border(
    backgrounds: &Vec<String>,
    semantic: &SemanticColors,
    band: VisualBand,
    bands: InteractionBands,
) -> (fit: StateFit)
    ensures
        fit@ == state_of(
            semantic.accent@,
            views(backgrounds@),
            band,
            seq![bands.apart(semantic.structural@)],
        ),
{
    state(
        semantic.accent.as_str(),
        copies(backgrounds),
        band,
        one(bands.adjacent(semantic.structural.as_str())),
    )
}

/// A status background lies on the panel, keeps the text readable and stands apart from
/// borders.
pub fn status_background(
    seed: &str,
    surfaces: &Surfaces,
    semantic: &SemanticColors,
    bands: InteractionBands,
    text_contrast: Scalar,
    text_delta_e: Scalar,
    chroma: Scalar,
) -> (fit: StateFit)
    ensures
        fit@ == (StateFitView {
            minimum_chroma: chroma,
            ..state_of(
                seed@,
                seq![surfaces.surface@],
                bands.selected,
                seq![
                    ReferenceView {
                        color: semantic.primary@,
                        contrast: text_contrast,
                        delta_e: text_delta_e,
                    },
                    bands.apart(semantic.structural@),
                ],
            )
        }),
{
    let text = Reference {
        color: semantic.primary.clone(),
        contrast: text_contrast,
        delta_e: text_delta_e,
    };
    let references = two(text, bands.adjacent(semantic.structural.as_str()));
    let fit = state(seed, only(surfaces.surface.as_str()), bands.selected, references);
    StateFit { seed: fit.seed, request: fit.request.with_minimum_chroma(chroma) }
}

/// The background of an editing mode lies on the chrome.
pub fn mode_background(seed: &str, surfaces: &Surfaces, bands: InteractionBands) -> (fit: StateFit)
    ensures
        fit@ == state_of(seed@, seq![surfaces.chrome@], bands.selected, Seq::empty()),
{
    state(seed, only(surfaces.chrome.as_str()), bands.selected, none())
}

/// The background of a player lies on the canvas and stands apart from the player's
/// cursor.
pub fn player_background(
    seed: &str,
    surfaces: &Surfaces,
    bands: InteractionBands,
    cursor: &Reference,
) -> (fit: StateFit)
    ensures
        fit@ == state_of(seed@, seq![surfaces.canvas@], bands.hover.floors(), seq![cursor@]),
{
    state(
        seed,
        only(surfaces.canvas.as_str()),
        bands.hover.only_floors(),
        one(copy_reference(cursor)),
    )
}

/// A translucent fill to be fitted.
#[derive(Debug)]
pub struct OverlayFit {
    pub seed: String,
    pub request: OverlayFitRequest,
}

/// What an [`OverlayFit`] says.
pub struct OverlayFitView {
    pub seed: Seq<char>,
    pub backgrounds: Seq<Seq<char>>,
    pub band: VisualBand,
    /// Further backgrounds on which text stays readable.
    pub text_backgrounds: Seq<Seq<char>>,
    pub text: Option<(Seq<char>, Scalar)>,
    pub references: Seq<ReferenceView>,
    pub runtime: Option<RuntimeState>,
    pub runtime_reference: Option<RuntimeReferenceView>,
    pub prefers_source: bool,
}

impl OverlayFit {
    /// Whether the fit says this.
    pub open spec fn says(&self, view: OverlayFitView) -> bool {
        &&& self.seed@ == view.seed
        &&& views(self.request.backgrounds@) == view.backgrounds
        &&& self.request.contrast == view.band.contrast
        &&& self.request.delta_e == view.band.delta_e
        &&& views(self.request.readability_backgrounds@) == view.text_backgrounds
        &&& match view.text {
            Some(text) => self.request.readable_foregrounds@.len() == 1
                && self.request.readable_foregrounds@[0]@ == text,
            None => self.request.readable_foregrounds@.len() == 0,
        }
        &&& reference_views(self.request.rendered_references@) == view.references
        &&& self.request.runtime_state == view.runtime
        &&& match view.runtime_reference {
            Some(reference) => self.request.runtime_rendered_references@.len() == 1
                && self.request.runtime_rendered_references@[0]@ == reference,
            None => self.request.runtime_rendered_references@.len() == 0,
        }
        &&& self.request.prefer_source_fidelity == view.prefers_source
    }
}

/// A fill that stands out from its backgrounds and asks for nothing else.
pub open spec fn overlay_of(seed: Seq<char>, backgrounds: Seq<Seq<char>>, band: VisualBand) -> OverlayFitView {
    OverlayFitView {
        seed,
        backgrounds,
        band,
        text_backgrounds: Seq::empty(),
        text: None,
        references: Seq::empty(),
        runtime: None,
        runtime_reference: None,
        prefers_source: false,
    }
}

fn fill(seed: &str, backgrounds: Vec<String>, band: VisualBand) -> (fit: OverlayFit)
    ensures
        fit.says(overlay_of(seed@, views(backgrounds@), band)),
{
    let fit = OverlayFit {
        seed: seed.to_owned(),
        request: OverlayFitRequest::new(backgrounds, band.contrast, band.delta_e),
    };
    assert(views(fit.request.readability_backgrounds@) =~= Seq::<Seq<char>>::empty());
    assert(reference_views(fit.request.rendered_references@) =~= Seq::<ReferenceView>::empty());
    fit
}

fn under_text(text: &ReadableForeground) -> (texts: Vec<ReadableForeground>)
    ensures
        texts@.len() == 1,
        texts@[0]@ == text@,
{
    vec![ReadableForeground { color: text.color.clone(), contrast: text.contrast }]
}

/// A hovered control starts from the panel surface and is also seen fainter.
pub fn element_hover(
    surfaces: &Surfaces,
    interactions: &Vec<String>,
    bands: InteractionBands,
    text: &ReadableForeground,
    runtime: RuntimeState,
) -> (fit: OverlayFit)
    ensures
        fit.says(
            OverlayFitView {
                text: Some(text@),
                runtime: Some(runtime),
                ..overlay_of(surfaces.surface@, views(interactions@), bands.hover)
            },
        ),
{
    let fit = fill(surfaces.surface.as_str(), copies(interactions), bands.hover);
    let request = OverlayFitRequest {
        runtime_state: Some(runtime),
        readable_foregrounds: under_text(text),
        ..fit.request
    };
    OverlayFit { seed: fit.seed, request }
}

/// An active control stands apart from the hovered one, also where both are seen fainter.
pub fn element_active(
    surfaces: &Surfaces,
    interactions: &Vec<String>,
    bands: InteractionBands,
    text: &ReadableForeground,
    runtime: RuntimeState,
    hover: &str,
    runtime_hover: &str,
    base_step: Scalar,
) -> (fit: OverlayFit)
    ensures
        fit.says(
            OverlayFitView {
                text: Some(text@),
                runtime: Some(runtime),
                references: seq![bands.apart(hover@)],
                runtime_reference: Some(
                    RuntimeReferenceView { apart: bands.apart(runtime_hover@), base_step },
                ),
                ..overlay_of(surfaces.surface@, views(interactions@), bands.active)
            },
        ),
{
    let fit = fill(surfaces.surface.as_str(), copies(interactions), bands.active);
    let fainter = RuntimeReference {
        color: runtime_hover.to_owned(),
        contrast: bands.adjacent_contrast,
        delta_e: bands.adjacent_delta_e,
        base_step,
    };
    let request = OverlayFitRequest {
        runtime_state: Some(runtime),
        readable_foregrounds: under_text(text),
        rendered_references: one(bands.adjacent(hover)),
        runtime_rendered_references: vec![fainter],
        ..fit.request
    };
    OverlayFit { seed: fit.seed, request }
}

/// A hovered control without a surface of its own starts from the canvas.
pub fn ghost_hover(
    surfaces: &Surfaces,
    interactions: &Vec<String>,
    bands: InteractionBands,
    text: &ReadableForeground,
) -> (fit: OverlayFit)
    ensures
        fit.says(
            OverlayFitView {
                text: Some(text@),
                ..overlay_of(surfaces.canvas@, views(interactions@), bands.hover)
            },
        ),
{
    let fit = fill(surfaces.canvas.as_str(), copies(interactions), bands.hover);
    let request = OverlayFitRequest { readable_foregrounds: under_text(text), ..fit.request };
    OverlayFit { seed: fit.seed, request }
}

/// An active one stands apart from the hovered one.
pub fn ghost_active(
    surfaces: &Surfaces,
    interactions: &Vec<String>,
    bands: InteractionBands,
    text: &ReadableForeground,
    hover: &str,
) -> (fit: OverlayFit)
    ensures
        fit.says(
            OverlayFitView {
                text: Some(text@),
                references: seq![bands.apart(hover@)],
                ..overlay_of(surfaces.canvas@, views(interactions@), bands.active)
            },
        ),
{
    let fit = fill(surfaces.canvas.as_str(), copies(interactions), bands.active);
    let request = OverlayFitRequest {
        readable_foregrounds: under_text(text),
        rendered_references: one(bands.adjacent(hover)),
        ..fit.request
    };
    OverlayFit { seed: fit.seed, request }
}

/// A selected control starts from the selection and stands apart from both active ones.
pub fn element_selected(
    palette: &ResolvedPalette,
    interactions: &Vec<String>,
    bands: InteractionBands,
    text: &ReadableForeground,
    runtime: RuntimeState,
    element_active: &str,
    ghost_active: &str,
) -> (fit: OverlayFit)
    requires
        palette.colors@.contains_key("selection"@),
    ensures
        fit.says(
            OverlayFitView {
                text: Some(text@),
                runtime: Some(runtime),
                references: seq![bands.apart(element_active@), bands.apart(ghost_active@)],
                ..overlay_of(
                    palette.colors@["selection"@]@,
                    views(interactions@),
                    bands.selected,
                )
            },
        ),
{
    let fit = fill(color(palette, "selection"), copies(interactions), bands.selected);
    let request = OverlayFitRequest {
        runtime_state: Some(runtime),
        readable_foregrounds: under_text(text),
        rendered_references: two(bands.adjacent(element_active), bands.adjacent(ghost_active)),
        ..fit.request
    };
    OverlayFit { seed: fit.seed, request }
}

/// A line of the editor lies on the canvas and stands apart from a weaker line, as that is
/// seen there.
pub fn editor_line(
    seed: &str,
    surfaces: &Surfaces,
    band: VisualBand,
    text: &ReadableForeground,
    weaker: Option<&Reference>,
) -> (fit: OverlayFit)
    ensures
        fit.says(
            OverlayFitView {
                text: Some(text@),
                references: match weaker {
                    Some(weaker) => seq![weaker@],
                    None => Seq::empty(),
                },
                ..overlay_of(seed@, seq![surfaces.canvas@], band)
            },
        ),
{
    let fit = fill(seed, only(surfaces.canvas.as_str()), band);
    let rendered_references = match weaker {
        Some(weaker) => one(copy_reference(weaker)),
        None => none(),
    };
    let request = OverlayFitRequest {
        readable_foregrounds: under_text(text),
        rendered_references,
        ..fit.request
    };
    OverlayFit { seed: fit.seed, request }
}

/// A highlight in the editor keeps text readable, and stands apart from another highlight
/// where there is one.
pub fn highlight(
    seed: &str,
    bases: &Vec<String>,
    band: VisualBand,
    text: &ReadableForeground,
    other: Option<&Reference>,
) -> (fit: OverlayFit)
    ensures
        fit.says(
            OverlayFitView {
                text: Some(text@),
                references: match other {
                    Some(other) => seq![other@],
                    None => Seq::empty(),
                },
                ..overlay_of(seed@, views(bases@), band.floors())
            },
        ),
{
    let fit = fill(seed, copies(bases), band.only_floors());
    let rendered_references = match other {
        Some(other) => one(copy_reference(other)),
        None => none(),
    };
    let request = OverlayFitRequest {
        readable_foregrounds: under_text(text),
        rendered_references,
        ..fit.request
    };
    OverlayFit { seed: fit.seed, request }
}

/// Search matches are highlighted in yellow.
pub fn search_match(
    semantic: &SemanticColors,
    bases: &Vec<String>,
    band: VisualBand,
    text: &ReadableForeground,
) -> (fit: OverlayFit)
    ensures
        fit.says(
            OverlayFitView {
                text: Some(text@),
                ..overlay_of(semantic.yellow@, views(bases@), band.floors())
            },
        ),
{
    highlight(semantic.yellow.as_str(), bases, band, text, None)
}

/// The active search match is highlighted in the accent, and stands apart from the others
/// where their highlight is known.
pub fn active_search_match(
    semantic: &SemanticColors,
    bases: &Vec<String>,
    band: VisualBand,
    text: &ReadableForeground,
    others: Option<&Reference>,
) -> (fit: OverlayFit)
    ensures
        fit.says(
            OverlayFitView {
                text: Some(text@),
                references: match others {
                    Some(others) => seq![others@],
                    None => Seq::empty(),
                },
                ..overlay_of(semantic.accent@, views(bases@), band.floors())
            },
        ),
{
    highlight(semantic.accent.as_str(), bases, band, text, others)
}

/// What a highlight of the editor starts from.
#[derive(Clone, Copy, Debug, PartialEq, Eq, Structural)]
pub enum HighlightRole {
    DocumentRead,
    DocumentWrite,
    DocumentBracket,
    Yank,
}

impl HighlightRole {
    /// The color of the theme that the highlight starts from.
    pub open spec fn seed_view(self, semantic: SemanticColors) -> Seq<char> {
        match self {
            HighlightRole::DocumentRead => semantic.accent@,
            HighlightRole::DocumentWrite => semantic.orange@,
            HighlightRole::DocumentBracket => semantic.cyan@,
            HighlightRole::Yank => semantic.yellow@,
        }
    }

    /// The color of the theme that the highlight starts from.
    pub fn seed<'a>(self, semantic: &'a SemanticColors) -> (seed: &'a str)
        ensures
            seed@ == self.seed_view(*semantic),
    {
        match self {
            HighlightRole::DocumentRead => semantic.accent.as_str(),
            HighlightRole::DocumentWrite => semantic.orange.as_str(),
            HighlightRole::DocumentBracket => semantic.cyan.as_str(),
            HighlightRole::Yank => semantic.yellow.as_str(),
        }
    }
}

/// One fill of a pair that tells changes apart: it stays close to its seed where that is
/// preferred, and keeps text readable where text is given.
pub fn change_fill(
    seed: &str,
    bases: &Vec<String>,
    band: VisualBand,
    text: Option<&ReadableForeground>,
    prefers_source: bool,
) -> (fit: OverlayFit)
    ensures
        fit.says(
            OverlayFitView {
                text: match text {
                    Some(text) => Some(text@),
                    None => None,
                },
                prefers_source,
                ..overlay_of(seed@, views(bases@), band.floors())
            },
        ),
{
    let fit = fill(seed, copies(bases), band.only_floors());
    let readable_foregrounds: Vec<ReadableForeground> = match text {
        Some(text) => under_text(text),
        None => Vec::new(),
    };
    let request = OverlayFitRequest {
        readable_foregrounds,
        prefer_source_fidelity: prefers_source,
        ..fit.request
    };
    OverlayFit { seed: fit.seed, request }
}

/// A selection stands out on every background, keeps text readable on those and more, is
/// also seen fainter, and stands apart from the selections of others.
pub fn selection(
    seed: &str,
    backgrounds: &Vec<String>,
    text_backgrounds: &Vec<String>,
    band: VisualBand,
    text: &ReadableForeground,
    runtime: RuntimeState,
    others: Vec<Reference>,
) -> (fit: OverlayFit)
    ensures
        fit.says(
            OverlayFitView {
                text_backgrounds: views(text_backgrounds@),
                text: Some(text@),
                references: reference_views(others@),
                runtime: Some(runtime),
                ..overlay_of(seed@, views(backgrounds@), band)
            },
        ),
{
    let fit = fill(seed, copies(backgrounds), band);
    let request = OverlayFitRequest {
        readability_backgrounds: copies(text_backgrounds),
        readable_foregrounds: under_text(text),
        rendered_references: others,
        runtime_state: Some(runtime),
        ..fit.request
    };
    OverlayFit { seed: fit.seed, request }
}

/// The selection of a further player has the floors of the first.
pub fn further_selection(
    cursor: &str,
    backgrounds: &Vec<String>,
    text_backgrounds: &Vec<String>,
    bands: InteractionBands,
    text: &ReadableForeground,
    runtime: RuntimeState,
    others: Vec<Reference>,
) -> (fit: OverlayFit)
    ensures
        fit.says(
            OverlayFitView {
                text_backgrounds: views(text_backgrounds@),
                text: Some(text@),
                references: reference_views(others@),
                runtime: Some(runtime),
                ..overlay_of(cursor@, views(backgrounds@), bands.selected.floors())
            },
        ),
{
    selection(
        cursor,
        backgrounds,
        text_backgrounds,
        bands.selected.only_floors(),
        text,
        runtime,
        others,
    )
}

/// A drop target is an accent on the panel.
pub fn drop_target(semantic: &SemanticColors, surfaces: &Surfaces, bands: InteractionBands) -> (fit:
    OverlayFit)
    ensures
        fit.says(overlay_of(semantic.accent@, seq![surfaces.surface@], bands.selected)),
{
    fill(semantic.accent.as_str(), only(surfaces.surface.as_str()), bands.selected)
}

/// A scroll thumb starts from the text color and stands apart from a weaker thumb.
pub fn thumb(
    semantic: &SemanticColors,
    contexts: &Vec<String>,
    band: VisualBand,
    bands: InteractionBands,
    weaker: Option<&str>,
) -> (fit: OverlayFit)
    ensures
        fit.says(
            OverlayFitView {
                references: match weaker {
                    Some(weaker) => seq![bands.apart(weaker@)],
                    None => Seq::empty(),
                },
                ..overlay_of(semantic.primary@, views(contexts@), band)
            },
        ),
{
    let fit = fill(semantic.primary.as_str(), copies(contexts), band);
    let rendered_references = match weaker {
        Some(weaker) => one(bands.adjacent(weaker)),
        None => none(),
    };
    let request = OverlayFitRequest { rendered_references, ..fit.request };
    OverlayFit { seed: fit.seed, request }
}

} // verus!
