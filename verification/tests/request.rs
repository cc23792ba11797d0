//! Requests for colors and what is wrong with them.

use omarchy_zed_theme::constants::{semantic_pair_contract, syntax_diff_contract, OVERLAY_MAX_ALPHA};
use omarchy_zed_theme::scalar::Scalar;
use omarchy_zed_theme::search::request::{
    finite_at_least_zero, finite_unit_interval, valid_contrast, validate_alpha_range, Domain,
    FitBounds, MeasuredContract, MetricBand, NumericFault, OverlayFitRequest, OverlayPairRequest,
    PairConstraints, PerBackgroundContrast, ReadableForeground, Reference, RuntimeReference,
    RuntimeState, StateFitRequest,
};

fn scalar(value: f64) -> Scalar {
    Scalar {
        bits: value.to_bits(),
    }
}

fn describe(result: Result<(), NumericFault>) -> String {
    match result {
        Ok(()) => "accepted".into(),
        Err(NumericFault::BelowMinimum { name, minimum, .. }) => format!("{name} < {minimum}"),
        Err(NumericFault::OutsideRange {
            name,
            minimum,
            maximum,
            ..
        }) => format!("{name} outside {minimum}..{maximum}"),
        Err(NumericFault::Inconsistent { message }) => message,
    }
}

fn band(minimum: f64, preferred: f64, maximum: f64) -> MetricBand {
    MetricBand::bounded(scalar(minimum), scalar(preferred), scalar(maximum))
}

fn floor(minimum: f64) -> MetricBand {
    MetricBand::floor(scalar(minimum))
}

fn backgrounds() -> Vec<String> {
    vec!["#101010".into()]
}

fn state() -> StateFitRequest {
    StateFitRequest::new(backgrounds(), floor(1.2), floor(0.01))
}

fn overlay() -> OverlayFitRequest {
    OverlayFitRequest::new(backgrounds(), floor(1.2), floor(0.01))
}

fn pair() -> PairConstraints {
    PairConstraints::new(scalar(4.5), scalar(1.1), scalar(0.05), scalar(0.02))
}

fn reference(contrast: f64, delta_e: f64) -> Reference {
    Reference {
        color: "#202020".into(),
        contrast: scalar(contrast),
        delta_e: scalar(delta_e),
    }
}

#[test]
fn numbers_have_their_domains() {
    for value in [1.0, 4.5, 21.0] {
        assert_eq!(describe(valid_contrast("c", scalar(value))), "accepted");
    }
    for value in [0.999, 21.5, f64::NAN, f64::INFINITY, -1.0] {
        assert_eq!(
            describe(valid_contrast("c", scalar(value))),
            "c outside 1..21"
        );
    }
    assert_eq!(
        describe(finite_at_least_zero("d", scalar(-0.0))),
        "accepted"
    );
    for value in [-0.5, f64::NAN, f64::INFINITY] {
        assert_eq!(describe(finite_at_least_zero("d", scalar(value))), "d < 0");
    }
    assert_eq!(
        describe(finite_unit_interval("u", scalar(1.0))),
        "accepted"
    );
    assert_eq!(
        describe(finite_unit_interval("u", scalar(1.5))),
        "u outside 0..1"
    );
    assert_eq!(describe(validate_alpha_range(1, 255)), "accepted");
    assert_eq!(
        describe(validate_alpha_range(9, 8)),
        "overlay minimum alpha cannot exceed maximum alpha"
    );
}

#[test]
fn bands_are_ordered() {
    let contrast = |band: MetricBand| describe(band.validate("band", Domain::Contrast));
    assert_eq!(contrast(band(1.1, 1.2, 1.3)), "accepted");
    assert_eq!(contrast(floor(0.5)), "band minimum outside 1..21");
    assert_eq!(
        contrast(band(1.3, 1.2, 1.4)),
        "band preferred cannot be below its minimum"
    );
    assert_eq!(
        contrast(band(1.1, 1.4, 1.3)),
        "band preferred cannot exceed its maximum"
    );
    assert_eq!(
        contrast(MetricBand {
            minimum: scalar(1.5),
            preferred: None,
            maximum: Some(scalar(1.2)),
        }),
        "band maximum cannot be below its minimum"
    );
    assert_eq!(
        describe(floor(-1.0).validate("band", Domain::Distance)),
        "band minimum < 0"
    );
    let open = MetricBand::with_preference(scalar(1.1), scalar(1.2));
    assert_eq!(open.minimum(), scalar(1.1));
    assert_eq!(open.preferred(), Some(scalar(1.2)));
    assert_eq!(open.maximum(), None);
}

#[test]
fn bounds_of_a_color_are_ordered() {
    let bounds = FitBounds::new(floor(4.5));
    assert_eq!(bounds.upper_chroma, scalar(f64::INFINITY));
    assert_eq!(describe(bounds.validate()), "accepted");
    assert_eq!(
        describe(
            FitBounds {
                lower_lightness: scalar(0.8),
                upper_lightness: scalar(0.2),
                ..bounds
            }
            .validate()
        ),
        "lower lightness cannot exceed upper lightness"
    );
    assert_eq!(
        describe(
            FitBounds {
                lower_chroma: scalar(0.3),
                upper_chroma: scalar(0.2),
                ..bounds
            }
            .validate()
        ),
        "lower chroma cannot exceed upper chroma"
    );
    assert_eq!(
        describe(
            FitBounds {
                upper_chroma: scalar(f64::NAN),
                ..bounds
            }
            .validate()
        ),
        "upper chroma must be non-negative and not NaN"
    );
}

#[test]
fn contrasts_per_background_match_the_backgrounds() {
    let floors = PerBackgroundContrast::floors(vec![scalar(2.0), scalar(3.0)]);
    assert_eq!(describe(floors.validate(2)), "accepted");
    assert_eq!(
        describe(floors.validate(1)),
        "contrast floors must match the background count"
    );
    let ceilings = PerBackgroundContrast::ceilings(vec![scalar(2.0)]);
    assert_eq!(
        describe(ceilings.validate(2)),
        "contrast ceilings must match the background count"
    );
    assert!(matches!(
        PerBackgroundContrast::floors(vec![]),
        PerBackgroundContrast::Uniform
    ));
}

#[test]
fn state_requests_are_built_up() {
    let request = state()
        .with_minimum_chroma(scalar(0.04))
        .with_references(vec![reference(1.1, 0.02)]);
    assert_eq!(request.minimum_chroma, scalar(0.04));
    assert_eq!(request.references.len(), 1);
    assert_eq!(request.backgrounds, backgrounds());
    assert_eq!(describe(request.validate()), "accepted");
    assert_eq!(
        describe(state().with_minimum_chroma(scalar(-1.0)).validate()),
        "state minimum chroma < 0"
    );
    assert_eq!(
        describe(
            state()
                .with_references(vec![reference(0.5, 0.02)])
                .validate()
        ),
        "state reference contrast outside 1..21"
    );
}

#[test]
fn pair_constraints_are_built_up() {
    let constraints = pair()
        .with_minimum_chroma(scalar(0.03))
        .with_separation_alternative(Some((scalar(1.35), scalar(0.1), scalar(0.05))))
        .prefer_background()
        .balance_rendered_salience();
    assert_eq!(constraints.minimum_chroma, scalar(0.03));
    assert!(constraints.separation_alternative.is_some());
    assert!(constraints.prefer_background);
    assert!(constraints.balance_rendered_salience);
    assert_eq!(constraints.pair_contrast, scalar(1.1));
    assert_eq!(describe(constraints.validate()), "accepted");
    assert_eq!(
        describe(
            pair()
                .with_separation_alternative(Some((scalar(0.0), scalar(0.1), scalar(0.05))))
                .validate()
        ),
        "alternative pair contrast outside 1..21"
    );
}

#[test]
fn contracts_become_constraints() {
    let semantic = semantic_pair_contract();
    assert_eq!(semantic.separation_alternative, Some((1350, 100, 50)));
    assert_eq!(syntax_diff_contract().separation_alternative, None);
    let constraints = PairConstraints::from_contract(
        scalar(4.5),
        MeasuredContract {
            contrast: scalar(1.05),
            normal_delta_e: scalar(0.075),
            cvd_delta_e: scalar(0.04),
            separation_alternative: None,
        },
    );
    assert_eq!(constraints.foreground_contrast, scalar(4.5));
    assert_eq!(constraints.pair_contrast, scalar(1.05));
    assert_eq!(constraints.normal_delta, scalar(0.075));
    assert_eq!(constraints.cvd_delta, scalar(0.04));
    assert_eq!(constraints.lightness_delta, scalar(0.0));
}

#[test]
fn overlay_requests_are_built_up() {
    let request = overlay()
        .with_runtime_state(RuntimeState {
            opacity: scalar(0.6),
            contrast: scalar(1.05),
            delta_e: scalar(0.01),
        })
        .with_readable_foregrounds(vec![ReadableForeground {
            color: "#ffffff".into(),
            contrast: scalar(4.5),
        }])
        .with_readability_backgrounds(vec!["#202020".into()])
        .with_rendered_references(vec![reference(1.1, 0.02)])
        .with_runtime_rendered_references(vec![RuntimeReference {
            color: "#202020".into(),
            contrast: scalar(1.1),
            delta_e: scalar(0.02),
            base_step: scalar(0.01),
        }])
        .prefer_source_fidelity();
    assert!(request.runtime_state.is_some());
    assert_eq!(request.readable_foregrounds.len(), 1);
    assert_eq!(request.readability_backgrounds, ["#202020"]);
    assert_eq!(request.rendered_references.len(), 1);
    assert_eq!(request.runtime_rendered_references.len(), 1);
    assert!(request.prefer_source_fidelity);
    assert_eq!(describe(request.validate()), "accepted");
    assert_eq!(
        describe(
            overlay()
                .with_runtime_state(RuntimeState {
                    opacity: scalar(1.5),
                    contrast: scalar(1.05),
                    delta_e: scalar(0.01),
                })
                .validate()
        ),
        "runtime opacity factor outside 0..1"
    );
}

#[test]
fn overlay_pairs_are_built_up() {
    let request = || OverlayPairRequest::new(overlay(), overlay(), pair());
    assert_eq!(request().maximum_alpha, OVERLAY_MAX_ALPHA);
    assert_eq!(request().frontier_limit, 512);
    let limited = request().with_limits(198, 64);
    assert_eq!(
        (
            limited.minimum_alpha,
            limited.maximum_alpha,
            limited.frontier_limit
        ),
        (1, 198, 64)
    );
    let ranged = request().with_alpha_range(8, 198, 256);
    assert_eq!(ranged.minimum_alpha, 8);
    assert_eq!(describe(ranged.validate()), "accepted");
    assert_eq!(
        describe(request().with_alpha_range(9, 8, 256).validate()),
        "overlay minimum alpha cannot exceed maximum alpha"
    );
    assert_eq!(
        describe(request().with_limits(198, 1).validate()),
        "overlay frontier limit must be at least 128"
    );
}
