//! Which requests are accepted, and in which order searches go.

use crate::color::{is_hex, is_opaque_hex};
use crate::scalar::{lemma_comparison_is_numeric, lemma_one, Scalar, INFINITE};
use crate::search::fill_laws::lemma_tried_alphas;
use crate::search::inputs::{
    color_fit_fault, distinct_fit_fault, foreground_colors, hex_fault, numbered_fault,
    opaque_fault, overlay_fit_fault, reference_colors, runtime_colors, state_fit_fault,
};
use crate::search::overlay::{is_tried_alpha, lists_alphas};
use crate::search::request::{
    alpha_range_fault, contrast_fault, distance_fault, each_contrast_fault, foregrounds_fault,
    lemma_contrast_domain, references_fault, runtime_references_fault, unit_fault, Domain,
    FitBounds, MetricBand, OverlayFitRequest, OverlayPairRequest, PairConstraints,
    PerBackgroundContrast, ReadableForeground, Reference, RuntimeReference, StateFitRequest,
};
use crate::search::tiers::{OverlayPass, OverlayTiers, PairPass};
use crate::text::views;
use vstd::arithmetic::power2::pow2;
use vstd::prelude::*;

verus! {

/// Whether the number is a contrast: finite and from 1 to 21.
pub open spec fn is_contrast(value: Scalar) -> bool {
    value.is_finite_view() && pow2(1074) <= value.value() <= 21 * pow2(1074)
}

/// Whether the number is a distance: finite and not negative.
pub open spec fn is_distance(value: Scalar) -> bool {
    value.is_finite_view() && value.value() >= 0
}

/// Whether the number is a share: finite and from 0 to 1.
pub open spec fn is_share(value: Scalar) -> bool {
    value.is_finite_view() && 0 <= value.value() <= pow2(1074)
}

/// A contrast is accepted from 1 to 21, a distance from 0 on, and a share from 0 to 1.
pub proof fn lemma_accepted_numbers(name: Seq<char>, value: Scalar)
    ensures
        contrast_fault(name, value) is None <==> is_contrast(value),
        distance_fault(name, value) is None <==> is_distance(value),
        unit_fault(name, value) is None <==> is_share(value),
{
    lemma_contrast_domain(name, value);
    lemma_one();
    if value.is_finite_view() {
        let zero = Scalar { bits: 0 };
        lemma_comparison_is_numeric(zero, value);
        lemma_comparison_is_numeric(value, Scalar { bits: 0x3ff0_0000_0000_0000 });
        assert(zero.level() == 0 && zero.value() == 0);
    }
}

/// Whether every value of the band is a contrast or a distance, and the preferred one lies
/// between the minimum and the maximum.
pub open spec fn is_band(band: MetricBand, domain: Domain) -> bool {
    let fits = |value: Scalar|
        if domain == Domain::Contrast {
            is_contrast(value)
        } else {
            is_distance(value)
        };
    &&& fits(band.minimum)
    &&& band.preferred matches Some(preferred) ==> fits(preferred) && band.minimum.value()
        <= preferred.value()
    &&& band.maximum matches Some(maximum) ==> fits(maximum) && band.minimum.value()
        <= maximum.value() && (band.preferred matches Some(preferred) ==> preferred.value()
        <= maximum.value())
}

/// Exactly the bands in order are accepted.
pub proof fn lemma_accepted_bands(band: MetricBand, name: Seq<char>, domain: Domain)
    ensures
        band.fault(name, domain) is None <==> is_band(band, domain),
{
    lemma_accepted_numbers(name + " minimum"@, band.minimum);
    if let Some(preferred) = band.preferred {
        lemma_accepted_numbers(name + " preferred"@, preferred);
        if preferred.is_finite_view() && band.minimum.is_finite_view() {
            lemma_comparison_is_numeric(preferred, band.minimum);
        }
    }
    if let Some(maximum) = band.maximum {
        lemma_accepted_numbers(name + " maximum"@, maximum);
        if maximum.is_finite_view() && band.minimum.is_finite_view() {
            lemma_comparison_is_numeric(maximum, band.minimum);
        }
        if let Some(preferred) = band.preferred {
            if maximum.is_finite_view() && preferred.is_finite_view() {
                lemma_comparison_is_numeric(maximum, preferred);
            }
        }
    }
}

/// Exactly the bounds of a color fit are accepted whose contrasts are in order, whose
/// lightnesses are shares in order, and whose chromas are distances in order; there may be
/// no upper chroma.
pub proof fn lemma_accepted_bounds(bounds: FitBounds)
    ensures
        bounds.fault() is None <==> {
            &&& is_band(bounds.contrast, Domain::Contrast)
            &&& is_share(bounds.lower_lightness) && is_share(bounds.upper_lightness)
            &&& bounds.lower_lightness.value() <= bounds.upper_lightness.value()
            &&& is_distance(bounds.lower_chroma)
            &&& (bounds.upper_chroma.bits == INFINITE || (is_distance(bounds.upper_chroma)
                && bounds.lower_chroma.value() <= bounds.upper_chroma.value()))
        },
{
    lemma_accepted_bands(bounds.contrast, "color contrast"@, Domain::Contrast);
    lemma_accepted_numbers("lower lightness"@, bounds.lower_lightness);
    lemma_accepted_numbers("upper lightness"@, bounds.upper_lightness);
    lemma_accepted_numbers("lower chroma"@, bounds.lower_chroma);
    lemma_accepted_numbers("upper chroma"@, bounds.upper_chroma);
    if bounds.lower_lightness.is_finite_view() && bounds.upper_lightness.is_finite_view() {
        lemma_comparison_is_numeric(bounds.upper_lightness, bounds.lower_lightness);
    }
    if bounds.lower_chroma.is_finite_view() && bounds.upper_chroma.is_finite_view() {
        lemma_comparison_is_numeric(bounds.upper_chroma, bounds.lower_chroma);
    }
}

proof fn lemma_each_contrast(label: Seq<char>, values: Seq<Scalar>, from: int)
    requires
        0 <= from <= values.len(),
    ensures
        each_contrast_fault(label, values, from) is None <==> forall|i: int|
            from <= i < values.len() ==> is_contrast(#[trigger] values[i]),
    decreases values.len() - from,
{
    if from < values.len() {
        lemma_accepted_numbers(label, values[from]);
        lemma_each_contrast(label, values, from + 1);
    }
}

/// Floors and ceilings of the backgrounds are accepted if there is one for each, and each is
/// a contrast.
pub proof fn lemma_accepted_background_contrasts(
    contrast: PerBackgroundContrast,
    backgrounds: nat,
)
    ensures
        contrast.fault(backgrounds) is None <==> match contrast {
            PerBackgroundContrast::Uniform => true,
            PerBackgroundContrast::Floors(values) => values@.len() == backgrounds && forall|i: int|
                0 <= i < values@.len() ==> is_contrast(#[trigger] values@[i]),
            PerBackgroundContrast::Ceilings(values) => values@.len() == backgrounds && forall|
                i: int,
            |
                0 <= i < values@.len() ==> is_contrast(#[trigger] values@[i]),
        },
{
    match contrast {
        PerBackgroundContrast::Uniform => {},
        PerBackgroundContrast::Floors(values) => {
            lemma_each_contrast("color contrast floor"@, values@, 0);
        },
        PerBackgroundContrast::Ceilings(values) => {
            lemma_each_contrast("color contrast ceiling"@, values@, 0);
        },
    }
}

/// Whether every reference has a contrast and a distance to keep.
pub open spec fn are_references(references: Seq<Reference>) -> bool {
    forall|i: int|
        0 <= i < references.len() ==> is_contrast((#[trigger] references[i]).contrast)
            && is_distance(references[i].delta_e)
}

proof fn lemma_references(
    contrast_label: Seq<char>,
    delta_label: Seq<char>,
    references: Seq<Reference>,
    from: int,
)
    requires
        0 <= from <= references.len(),
    ensures
        references_fault(contrast_label, delta_label, references, from) is None <==> forall|i: int|
            from <= i < references.len() ==> is_contrast((#[trigger] references[i]).contrast)
                && is_distance(references[i].delta_e),
    decreases references.len() - from,
{
    if from < references.len() {
        lemma_accepted_numbers(contrast_label, references[from].contrast);
        lemma_accepted_numbers(delta_label, references[from].delta_e);
        lemma_references(contrast_label, delta_label, references, from + 1);
    }
}

/// Exactly the requests for a state are accepted whose bands are in order, whose chroma is a
/// distance, and whose references have contrasts and distances.
pub proof fn lemma_accepted_states(request: StateFitRequest)
    ensures
        request.fault() is None <==> {
            &&& is_band(request.contrast, Domain::Contrast)
            &&& is_band(request.delta_e, Domain::Distance)
            &&& is_distance(request.minimum_chroma)
            &&& are_references(request.references@)
        },
{
    lemma_accepted_bands(request.contrast, "state contrast"@, Domain::Contrast);
    lemma_accepted_bands(request.delta_e, "state delta E"@, Domain::Distance);
    lemma_accepted_numbers("state minimum chroma"@, request.minimum_chroma);
    lemma_references(
        "state reference contrast"@,
        "state reference delta E"@,
        request.references@,
        0,
    );
}

/// Whether every number that a pair must keep is a contrast or a distance.
pub open spec fn are_constraints(constraints: PairConstraints) -> bool {
    &&& is_contrast(constraints.foreground_contrast)
    &&& is_contrast(constraints.pair_contrast)
    &&& is_distance(constraints.normal_delta)
    &&& is_distance(constraints.cvd_delta)
    &&& is_distance(constraints.lightness_delta)
    &&& is_distance(constraints.minimum_chroma)
    &&& constraints.separation_alternative matches Some((contrast, normal, cvd)) ==> is_contrast(
        contrast,
    ) && is_distance(normal) && is_distance(cvd)
}

/// Exactly the constraints of contrasts and distances are accepted.
pub proof fn lemma_accepted_constraints(constraints: PairConstraints)
    ensures
        constraints.fault() is None <==> are_constraints(constraints),
{
    lemma_accepted_numbers("foreground contrast"@, constraints.foreground_contrast);
    lemma_accepted_numbers("pair contrast"@, constraints.pair_contrast);
    lemma_accepted_numbers("normal delta E"@, constraints.normal_delta);
    lemma_accepted_numbers("CVD delta E"@, constraints.cvd_delta);
    lemma_accepted_numbers("lightness delta"@, constraints.lightness_delta);
    lemma_accepted_numbers("minimum chroma"@, constraints.minimum_chroma);
    if let Some((contrast, normal, cvd)) = constraints.separation_alternative {
        lemma_accepted_numbers("alternative pair contrast"@, contrast);
        lemma_accepted_numbers("alternative normal delta E"@, normal);
        lemma_accepted_numbers("alternative CVD delta E"@, cvd);
    }
}

proof fn lemma_foregrounds(foregrounds: Seq<ReadableForeground>, from: int)
    requires
        0 <= from <= foregrounds.len(),
    ensures
        foregrounds_fault(foregrounds, from) is None <==> forall|i: int|
            from <= i < foregrounds.len() ==> is_contrast((#[trigger] foregrounds[i]).contrast),
    decreases foregrounds.len() - from,
{
    if from < foregrounds.len() {
        lemma_accepted_numbers("readable foreground contrast"@, foregrounds[from].contrast);
        lemma_foregrounds(foregrounds, from + 1);
    }
}

proof fn lemma_runtime_references(references: Seq<RuntimeReference>, from: int)
    requires
        0 <= from <= references.len(),
    ensures
        runtime_references_fault(references, from) is None <==> forall|i: int|
            from <= i < references.len() ==> is_contrast((#[trigger] references[i]).contrast)
                && is_distance(references[i].delta_e) && is_distance(references[i].base_step),
    decreases references.len() - from,
{
    if from < references.len() {
        lemma_accepted_numbers("runtime reference contrast"@, references[from].contrast);
        lemma_accepted_numbers("runtime reference delta E"@, references[from].delta_e);
        lemma_accepted_numbers("runtime reference base step"@, references[from].base_step);
        lemma_runtime_references(references, from + 1);
    }
}

/// Whether every number of the request is of its kind.
pub open spec fn is_fill_request(request: OverlayFitRequest) -> bool {
    &&& is_band(request.contrast, Domain::Contrast)
    &&& is_band(request.delta_e, Domain::Distance)
    &&& request.runtime_state matches Some(state) ==> is_share(state.opacity) && is_contrast(
        state.contrast,
    ) && is_distance(state.delta_e)
    &&& forall|i: int|
        0 <= i < request.readable_foregrounds@.len() ==> is_contrast(
            (#[trigger] request.readable_foregrounds@[i]).contrast,
        )
    &&& are_references(request.rendered_references@)
    &&& forall|i: int|
        0 <= i < request.runtime_rendered_references@.len() ==> {
            let reference = #[trigger] request.runtime_rendered_references@[i];
            is_contrast(reference.contrast) && is_distance(reference.delta_e) && is_distance(
                reference.base_step,
            )
        }
}

/// Exactly the requests for a fill are accepted of which every number is of its kind.
pub proof fn lemma_accepted_fills(request: OverlayFitRequest)
    ensures
        request.fault() is None <==> is_fill_request(request),
{
    lemma_accepted_bands(request.contrast, "overlay contrast"@, Domain::Contrast);
    lemma_accepted_bands(request.delta_e, "overlay delta E"@, Domain::Distance);
    if let Some(state) = request.runtime_state {
        lemma_accepted_numbers("runtime opacity factor"@, state.opacity);
        lemma_accepted_numbers("runtime target contrast"@, state.contrast);
        lemma_accepted_numbers("runtime minimum delta E"@, state.delta_e);
    }
    lemma_foregrounds(request.readable_foregrounds@, 0);
    lemma_references(
        "rendered reference contrast"@,
        "rendered reference delta E"@,
        request.rendered_references@,
        0,
    );
    lemma_runtime_references(request.runtime_rendered_references@, 0);
}

/// Exactly the requests for a pair of fills are accepted whose fills and constraints are,
/// whose alphas are in order, and whose frontier has room for enough fills.
pub proof fn lemma_accepted_fill_pairs(request: OverlayPairRequest)
    ensures
        request.fault() is None <==> {
            &&& is_fill_request(request.first)
            &&& is_fill_request(request.second)
            &&& are_constraints(request.constraints)
            &&& request.minimum_alpha <= request.maximum_alpha
            &&& request.frontier_limit >= 128
        },
        alpha_range_fault(request.minimum_alpha, request.maximum_alpha) is None
            <==> request.minimum_alpha <= request.maximum_alpha,
{
    lemma_accepted_fills(request.first);
    lemma_accepted_fills(request.second);
    lemma_accepted_constraints(request.constraints);
}

/// Whether every text is a hex color.
pub open spec fn are_colors(texts: Seq<Seq<char>>) -> bool {
    forall|i: int| 0 <= i < texts.len() ==> is_hex(#[trigger] texts[i])
}

/// Whether every text is a hex color without transparency.
pub open spec fn are_opaque_colors(texts: Seq<Seq<char>>) -> bool {
    forall|i: int| 0 <= i < texts.len() ==> is_opaque_hex(#[trigger] texts[i])
}

proof fn lemma_hex_texts(texts: Seq<Seq<char>>, label: Seq<char>, from: int)
    requires
        0 <= from <= texts.len(),
    ensures
        hex_fault(texts, from) is None <==> forall|i: int|
            from <= i < texts.len() ==> is_hex(#[trigger] texts[i]),
        numbered_fault(texts, label, from) is None <==> forall|i: int|
            from <= i < texts.len() ==> is_hex(#[trigger] texts[i]),
        opaque_fault(texts, label, from) is None <==> forall|i: int|
            from <= i < texts.len() ==> is_opaque_hex(#[trigger] texts[i]),
    decreases texts.len() - from,
{
    if from < texts.len() {
        lemma_hex_texts(texts, label, from + 1);
    }
}

/// The colors of a color fit are accepted if there are backgrounds to see the color on and to
/// prefer, and all colors are without transparency.
pub proof fn lemma_accepted_fit_colors(
    seed: Seq<char>,
    backgrounds: Seq<Seq<char>>,
    preferences: Seq<Seq<char>>,
    avoided: Seq<Seq<char>>,
)
    ensures
        color_fit_fault(seed, backgrounds, preferences, avoided) is None <==> {
            &&& backgrounds.len() > 0 && preferences.len() > 0
            &&& is_opaque_hex(seed)
            &&& are_opaque_colors(backgrounds)
            &&& are_opaque_colors(preferences)
            &&& are_opaque_colors(avoided)
        },
{
    lemma_hex_texts(seq![seed], "fit_color seed"@, 0);
    assert(seq![seed][0] == seed);
    lemma_hex_texts(backgrounds, "fit_color background"@, 0);
    lemma_hex_texts(preferences, "fit_color preference background"@, 0);
    lemma_hex_texts(avoided, "fit_color avoided color"@, 0);
}

/// The colors of a state, of a fill and of colors that differ are accepted if there is a
/// background and all of them are colors.
pub proof fn lemma_accepted_request_colors(
    state: StateFitRequest,
    fill: OverlayFitRequest,
    seeds: Seq<Seq<char>>,
    backgrounds: Seq<Seq<char>>,
)
    ensures
        state_fit_fault(state) is None <==> {
            &&& state.backgrounds@.len() > 0
            &&& are_colors(views(state.backgrounds@))
            &&& are_colors(reference_colors(state.references@))
        },
        overlay_fit_fault(fill) is None <==> {
            &&& fill.backgrounds@.len() > 0
            &&& are_colors(views(fill.backgrounds@))
            &&& are_colors(views(fill.readability_backgrounds@))
            &&& are_colors(foreground_colors(fill.readable_foregrounds@))
            &&& are_colors(reference_colors(fill.rendered_references@))
            &&& are_colors(runtime_colors(fill.runtime_rendered_references@))
        },
        distinct_fit_fault(seeds, backgrounds) is None <==> {
            &&& backgrounds.len() > 0
            &&& are_colors(seeds)
            &&& are_colors(backgrounds)
        },
{
    lemma_hex_texts(views(state.backgrounds@), Seq::empty(), 0);
    lemma_hex_texts(reference_colors(state.references@), Seq::empty(), 0);
    lemma_hex_texts(views(fill.backgrounds@), Seq::empty(), 0);
    lemma_hex_texts(views(fill.readability_backgrounds@), Seq::empty(), 0);
    lemma_hex_texts(foreground_colors(fill.readable_foregrounds@), Seq::empty(), 0);
    lemma_hex_texts(reference_colors(fill.rendered_references@), Seq::empty(), 0);
    lemma_hex_texts(runtime_colors(fill.runtime_rendered_references@), Seq::empty(), 0);
    lemma_hex_texts(seeds, "distinct color seed"@, 0);
    lemma_hex_texts(backgrounds, "distinct color background"@, 0);
}

/// The search for a fill tries the preferred alphas, then the others if there are any, then,
/// where that is allowed, the fill that misses least; and it ends with the first fill found.
/// The search for a pair tries fills that miss nothing before any others.
pub proof fn lemma_passes(tiers: OverlayTiers, pass: OverlayPass, pair: PairPass)
    ensures
        tiers.pass_after(pass, true) is None,
        tiers.preferred_maximum != tiers.maximum ==> tiers.pass_after(
            OverlayPass::Preferred,
            false,
        ) == Some(OverlayPass::Remaining),
        tiers.allows_misses ==> tiers.pass_after(OverlayPass::Remaining, false) == Some(
            OverlayPass::BestEffort,
        ),
        tiers.allows_misses && tiers.preferred_maximum == tiers.maximum ==> tiers.pass_after(
            OverlayPass::Preferred,
            false,
        ) == Some(OverlayPass::BestEffort),
        !tiers.allows_misses ==> tiers.pass_after(pass, false) != Some(OverlayPass::BestEffort),
        !tiers.allows_misses ==> tiers.pass_after(OverlayPass::Remaining, false) is None,
        tiers.pass_after(OverlayPass::BestEffort, false) is None,
        pair.pass_after(true) is None,
        PairPass::Strict.pass_after(false) == Some(PairPass::BestEffort),
        PairPass::BestEffort.pass_after(false) is None,
{
}

/// The preferred pass tries no alpha above the preferred ones, the next one only such, up to
/// the highest, and the last pass all of them.
pub proof fn lemma_passes_split_the_alphas(
    tiers: OverlayTiers,
    pass: OverlayPass,
    alphas: Seq<u8>,
)
    requires
        tiers.tries(pass, alphas),
    ensures
        pass == OverlayPass::Preferred ==> forall|i: int|
            0 <= i < alphas.len() ==> #[trigger] alphas[i] <= tiers.preferred_maximum,
        pass == OverlayPass::Remaining ==> forall|i: int|
            0 <= i < alphas.len() ==> tiers.preferred_maximum < #[trigger] alphas[i]
                <= tiers.maximum,
        pass == OverlayPass::Remaining && tiers.preferred_maximum < tiers.maximum
            ==> alphas.contains(tiers.maximum),
        pass == OverlayPass::BestEffort && tiers.minimum <= tiers.maximum ==> alphas.contains(
            tiers.minimum,
        ) && alphas.contains(tiers.maximum),
{
    match pass {
        OverlayPass::Preferred => {
            lemma_tried_alphas(tiers.minimum, tiers.preferred_maximum, alphas);
        },
        OverlayPass::Remaining => {
            let above = |alpha: u8| alpha > tiers.preferred_maximum;
            let all = choose|all: Seq<u8>| #[trigger]
                lists_alphas(tiers.minimum, tiers.maximum, all) && alphas == all.filter(above);
            lemma_tried_alphas(tiers.minimum, tiers.maximum, all);
            assert forall|i: int| 0 <= i < alphas.len() implies tiers.preferred_maximum
                < #[trigger] alphas[i] <= tiers.maximum by {
                all.lemma_filter_pred(above, i);
                assert(all.filter(above).contains(alphas[i]));
                all.lemma_filter_contains_rev(above, alphas[i]);
                let at = choose|k: int| 0 <= k < all.len() && all[k] == alphas[i];
                assert(all[at] == alphas[i]);
            }
            if tiers.preferred_maximum < tiers.maximum {
                assert(is_tried_alpha(tiers.minimum, tiers.maximum, tiers.maximum as int));
                let at = choose|i: int| 0 <= i < all.len() && all[i] == tiers.maximum;
                all.lemma_filter_contains(above, at);
            }
        },
        OverlayPass::BestEffort => {
            lemma_tried_alphas(tiers.minimum, tiers.maximum, alphas);
            if tiers.minimum <= tiers.maximum {
                assert(is_tried_alpha(tiers.minimum, tiers.maximum, tiers.minimum as int));
                assert(alphas.contains(tiers.minimum));
                if tiers.maximum > 0 {
                    assert(is_tried_alpha(tiers.minimum, tiers.maximum, tiers.maximum as int));
                    assert(alphas.contains(tiers.maximum));
                }
            }
        },
    }
}

} // verus!
