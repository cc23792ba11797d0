//! The ranks of pairs, and colors that differ from one another.

use omarchy_zed_theme::color::{Rgb24, Rgba};
use omarchy_zed_theme::scalar::Scalar;
use omarchy_zed_theme::search::distinct::fit_distinct;
use omarchy_zed_theme::search::inputs::{
    check_color_fit, check_distinct_fit, check_overlay_fit, check_pair_backgrounds,
    check_scene_counts, check_state_fit,
};
use omarchy_zed_theme::search::memo::Memo;
use omarchy_zed_theme::search::overlay::{FillCandidate, OverlayPair};
use omarchy_zed_theme::search::pair::{PairFacts, PairLimits, PairSeparation};
use omarchy_zed_theme::search::pair_rank::{
    color_pair_facts, fill_pair_facts, rank_prefix, ColorPairTotals, FillPairTotals,
};
use omarchy_zed_theme::search::request::{
    MetricBand, OverlayFitRequest, ReadableForeground, Reference, RuntimeReference,
    StateFitRequest,
};
use omarchy_zed_theme::search::select::{
    fit_color, ColorFacts, ColorLimits, ColorTotals, ContrastFacts, DistinctFacts, DistinctLimits,
};
use omarchy_zed_theme::search::tiers::{OverlayPass, OverlayTiers, PairPass};
use omarchy_zed_theme::{ErrorKind, Result};
use std::cell::Cell;

fn scalar(value: f64) -> Scalar {
    Scalar {
        bits: value.to_bits(),
    }
}

fn numbers(values: &[Scalar]) -> Vec<f64> {
    values.iter().map(|value| f64::from_bits(value.bits)).collect()
}

fn separation() -> PairSeparation {
    PairSeparation {
        contrast: scalar(1.5),
        normal: scalar(0.2),
        cvd: scalar(0.1),
        lightness: scalar(0.3),
    }
}

#[test]
fn color_pairs_are_ranked_by_what_is_preferred() {
    let totals = ColorPairTotals {
        background: scalar(1.0),
        transform: scalar(2.0),
        lost_retention: scalar(-3.0),
        first_distance: scalar(4.0),
        own_deficit: scalar(5.0),
        pair_deficit: scalar(6.0),
    };
    let facts = color_pair_facts(separation(), totals, true);
    assert_eq!(facts.separation.contrast, scalar(1.5));
    assert_eq!(numbers(&facts.rank), [1.0, 2.0, -3.0, 4.0]);
    assert_eq!(numbers(&facts.effort), [5.0, 6.0, 1.0, 2.0, -3.0]);
    let facts = color_pair_facts(separation(), totals, false);
    assert_eq!(numbers(&facts.rank), [2.0, 2.0, -3.0, 4.0]);
    assert_eq!(numbers(&facts.effort), [5.0, 6.0, 2.0, 2.0, -3.0]);
}

#[test]
fn fill_pairs_can_be_balanced() {
    let totals = FillPairTotals {
        prefix: (scalar(1.0), scalar(2.0), scalar(3.0)),
        imbalance: scalar(4.0),
        deficit: scalar(5.0),
        rank: (scalar(6.0), scalar(7.0)),
        lost_normal: scalar(-8.0),
        lost_cvd: scalar(-9.0),
        lost_distance: scalar(-17.0),
        lost_contrast: scalar(-10.0),
    };
    let facts = fill_pair_facts(separation(), totals, true);
    assert_eq!(numbers(&facts.rank), [2.0, 4.0, 1.0, 3.0, -17.0, -10.0]);
    assert_eq!(
        numbers(&facts.effort),
        [5.0, 6.0, 4.0, 7.0, -8.0, -9.0, -10.0]
    );
    let facts = fill_pair_facts(separation(), totals, false);
    assert_eq!(numbers(&facts.rank), [1.0, 2.0, 3.0, -17.0, -10.0, 0.0]);
    assert_eq!(facts.separation.lightness, scalar(0.3));
}

#[test]
fn a_fill_that_misses_nothing_is_ranked_by_the_rest() {
    let fill = |rank: [f64; 7]| FillCandidate {
        emitted: Rgba {
            r: 1,
            g: 2,
            b: 3,
            a: 4,
        },
        rank: rank.iter().map(|value| scalar(*value)).collect(),
        source_chroma: scalar(0.0),
    };
    let slack = scalar(1e-12);
    let prefix = |rank: [f64; 7]| numbers(&rank_prefix(&fill(rank), slack));
    assert_eq!(prefix([0.0, 0.0, 1.0, 2.0, 3.0, 4.0, 5.0]), [1.0, 2.0, 3.0]);
    assert_eq!(prefix([0.0, 1e-12, 1.0, 2.0, 3.0, 4.0, 5.0]), [1.0, 2.0, 3.0]);
    assert_eq!(prefix([0.0, 0.5, 1.0, 2.0, 3.0, 4.0, 5.0]), [0.0, 0.5, 1.0]);
    assert_eq!(prefix([0.5, 0.0, 1.0, 2.0, 3.0, 4.0, 5.0]), [0.5, 0.0, 1.0]);
}

fn gray(level: u8) -> Rgb24 {
    Rgb24 {
        r: level,
        g: level,
        b: level,
    }
}

#[test]
fn seeds_that_are_alike_are_fitted_to_different_colors() {
    let fitted = vec![gray(7), gray(7), gray(7), gray(7)];
    let limits = DistinctLimits {
        slack: scalar(0.0),
        normal: scalar(0.0),
        cvd: scalar(0.0),
    };
    let measure = |seed: usize, chosen: Vec<Rgb24>| {
        assert_eq!(chosen.len(), seed);
        [7, 3, 9, 5]
            .iter()
            .map(|level| DistinctFacts {
                color: gray(*level),
                contrast_deficit: scalar(0.0),
                normal: scalar(1.0),
                cvd: scalar(1.0),
                normal_loss: scalar(0.0),
                cvd_loss: scalar(0.0),
                overshoot: scalar(0.0),
                distance: scalar(f64::from(*level)),
                lost_retention: scalar(0.0),
            })
            .collect::<Vec<_>>()
    };
    let colors = fit_distinct(&fitted, limits, &measure);
    assert_eq!(colors, vec![gray(7), gray(3), gray(5), gray(9)]);
    assert!(fit_distinct(&Vec::new(), limits, &measure).is_empty());
}

#[test]
fn where_nothing_fits_the_least_miss_is_taken() {
    let facts = |level: u8, deficit: f64| ColorFacts {
        color: gray(level),
        lightness: scalar(0.5),
        chroma: scalar(0.0),
        avoided: Vec::new(),
        contrasts: vec![ContrastFacts {
            meets_floor: false,
            ratio: scalar(1.0),
        }],
        totals: ColorTotals {
            contrast_gap: scalar(0.0),
            background_gap: scalar(0.0),
            overshoot: scalar(0.0),
            distance: scalar(f64::from(level)),
            lost_retention: scalar(0.0),
            hard_deficit: scalar(deficit),
            ceiling_excess: scalar(0.0),
        },
    };
    let limits = ColorLimits {
        lower_lightness: scalar(0.0),
        upper_lightness: scalar(1.0),
        chroma: None,
        avoided_lightness: scalar(0.0),
        avoided_distance: scalar(0.0),
        maximum_contrast: None,
        ceilings: None,
        prefers_contrast: false,
        prefers_background: false,
    };
    let table = vec![facts(0, 3.0), facts(255, 1.5), facts(128, 2.0)];
    assert_eq!(
        fit_color("#050505", &limits, &facts(5, 4.0), &table),
        "#ffffff"
    );
}

fn fill(level: u8, rank: [f64; 3]) -> FillCandidate {
    FillCandidate {
        emitted: Rgba {
            r: level,
            g: level,
            b: level,
            a: 100,
        },
        rank: [0.0, 0.0, rank[0], rank[1], rank[2], 0.0, 0.0]
            .iter()
            .map(|value| scalar(*value))
            .collect(),
        source_chroma: scalar(1.0),
    }
}

fn overlay_pair(first: Vec<FillCandidate>, second: Vec<FillCandidate>, balance: bool) -> OverlayPair {
    OverlayPair {
        first,
        second,
        limits: PairLimits {
            contrast: scalar(0.0),
            normal: scalar(0.0),
            cvd: scalar(0.0),
            lightness: scalar(0.0),
            alternative: None,
        },
        slack: scalar(1e-12),
        chroma_floor: scalar(0.0),
        balance_salience: balance,
    }
}

/// What adding up both ranks gives.
fn added(pair: &OverlayPair, left: usize, right: usize) -> PairFacts {
    let sum = |at: usize| {
        scalar(
            f64::from_bits(pair.first[left].rank[at].bits)
                + f64::from_bits(pair.second[right].rank[at].bits),
        )
    };
    PairFacts {
        separation: separation(),
        rank: vec![sum(2), sum(3), sum(4), scalar(0.0), scalar(0.0), scalar(0.0)],
        effort: vec![sum(2)],
    }
}

#[test]
fn the_best_pair_adds_up_to_the_least() {
    let pair = overlay_pair(
        vec![fill(1, [2.0, 0.0, 0.0]), fill(2, [1.0, 0.0, 0.0])],
        vec![fill(3, [5.0, 0.0, 0.0]), fill(4, [3.0, 0.0, 0.0])],
        false,
    );
    let measure = |left: usize, right: usize| added(&pair, left, right);
    assert_eq!(pair.solve_overlay_pair(&measure, 128, false), Some((1, 1)));
    assert_eq!(pair.solve_overlay_pair(&measure, 100, false), None);
}

#[test]
fn the_scan_of_pairs_breaks_off_on_rounded_sums() {
    // The first parts of both rows add up to the same number, so that the second row,
    // whose second part is smaller, is better; the third row is past it.
    let huge = 1e17;
    let first = vec![
        fill(1, [1.0, 9.0, 0.0]),
        fill(2, [2.0, 8.0, 0.0]),
        fill(3, [3.0, 5.0, 0.0]),
    ];
    let second = vec![fill(4, [huge, 0.0, 0.0])];
    let pair = overlay_pair(first.clone(), second.clone(), false);
    let measure = |left: usize, right: usize| added(&pair, left, right);
    assert_eq!(huge + 1.0, huge + 3.0);
    assert_eq!(pair.solve_overlay_pair(&measure, 128, false), Some((2, 0)));

    // A row that is past the best pair ends the scan, though a later one adds up to less.
    let first = vec![
        fill(1, [1.0, 1.0, 0.0]),
        fill(2, [2.0, 8.0, 0.0]),
        fill(3, [3.0, 0.0, 0.0]),
    ];
    let pair = overlay_pair(first.clone(), second.clone(), false);
    let measure = |left: usize, right: usize| added(&pair, left, right);
    assert_eq!(pair.solve_overlay_pair(&measure, 128, false), Some((0, 0)));
    let pair = overlay_pair(first, second, true);
    let measure = |left: usize, right: usize| added(&pair, left, right);
    assert_eq!(pair.solve_overlay_pair(&measure, 128, false), Some((2, 0)));
}

#[test]
fn strict_passes_come_before_the_least_miss() {
    let tiers = OverlayTiers {
        minimum: 1,
        preferred_maximum: 100,
        maximum: 200,
        allows_misses: true,
    };
    assert_eq!(
        tiers.next_pass(OverlayPass::Preferred, false),
        Some(OverlayPass::Remaining)
    );
    assert_eq!(
        tiers.next_pass(OverlayPass::Remaining, false),
        Some(OverlayPass::BestEffort)
    );
    assert_eq!(tiers.next_pass(OverlayPass::BestEffort, false), None);
    assert_eq!(tiers.next_pass(OverlayPass::Preferred, true), None);
    let preferred = tiers.alphas(OverlayPass::Preferred);
    assert_eq!(preferred.first(), Some(&1));
    assert_eq!(preferred.last(), Some(&100));
    let remaining = tiers.alphas(OverlayPass::Remaining);
    assert!(remaining.iter().all(|alpha| *alpha > 100));
    assert_eq!(remaining.last(), Some(&200));
    assert_eq!(tiers.alphas(OverlayPass::BestEffort).last(), Some(&200));
    let narrow = OverlayTiers {
        preferred_maximum: 200,
        allows_misses: false,
        ..tiers
    };
    assert_eq!(narrow.next_pass(OverlayPass::Preferred, false), None);
    assert_eq!(
        PairPass::Strict.next_pass(false),
        Some(PairPass::BestEffort)
    );
    assert_eq!(PairPass::Strict.next_pass(true), None);
    assert_eq!(PairPass::BestEffort.next_pass(false), None);
    assert!(PairPass::BestEffort.allows_misses() && !PairPass::Strict.allows_misses());
}

#[test]
fn what_is_remembered_is_not_solved_again() {
    let mut memo: Memo<usize> = Memo::new();
    let solved = Cell::new(0);
    let solve = |question: String| {
        solved.set(solved.get() + 1);
        question.len()
    };
    assert_eq!(memo.get("four"), None);
    for question in ["four", "three", "four", "three", "four"] {
        memo.ask(question, &solve);
        assert_eq!(memo.get(question), Some(&question.len()));
    }
    assert_eq!(solved.get(), 2);
}

fn texts(values: &[&str]) -> Vec<String> {
    values.iter().map(|value| (*value).to_owned()).collect()
}

fn assert_refused(result: Result<()>, message: &str) {
    let error = result.unwrap_err();
    assert_eq!(error.kind(), ErrorKind::InvalidInput);
    assert_eq!(error.message(), message);
}

#[test]
fn searches_refuse_missing_backgrounds_and_other_texts() {
    let (none, good, bad) = (texts(&[]), texts(&["#000000"]), texts(&["#00000"]));
    let clear = texts(&["#00000080"]);
    assert!(check_color_fit("#ffffff", &good, &good, &none).is_ok());
    for (backgrounds, preferences) in [(&none, &good), (&good, &none)] {
        assert_refused(
            check_color_fit("#ffffff", backgrounds, preferences, &none),
            "fit_color requires at least one background",
        );
    }
    assert_refused(
        check_color_fit("#fff", &clear, &good, &none),
        "resolved palette key \"fit_color seed\" must be a six-digit hex color, got \"#fff\"",
    );
    assert_refused(
        check_color_fit("#ffffff", &clear, &good, &bad),
        "resolved palette key \"fit_color background\" must be a six-digit hex color, got \"#00000080\"",
    );
    assert_refused(
        check_color_fit("#ffffff", &good, &good, &bad),
        "resolved palette key \"fit_color avoided color\" must be a six-digit hex color, got \"#00000\"",
    );
    assert_refused(
        check_distinct_fit(&good, &none),
        "fit_distinct_colors requires at least one background",
    );
    assert_refused(
        check_distinct_fit(&texts(&["#000000", "red"]), &good),
        "distinct color seed[1]: invalid hex color: \"red\"",
    );
    assert_refused(
        check_distinct_fit(&good, &bad),
        "distinct color background[0]: invalid hex color: \"#00000\"",
    );
    assert!(check_distinct_fit(&good, &clear).is_ok());
    assert_refused(
        check_pair_backgrounds(&good, &none),
        "fit_pair requires at least one background",
    );
    assert!(check_pair_backgrounds(&good, &bad).is_ok());
}

#[test]
fn requests_refuse_missing_backgrounds_and_other_texts() {
    let band = || MetricBand::floor(scalar(1.0));
    let state = |backgrounds: &[&str]| StateFitRequest::new(texts(backgrounds), band(), band());
    assert_refused(
        check_state_fit(&state(&[])),
        "fit_state requires at least one background",
    );
    assert_refused(
        check_state_fit(&state(&["#000000", "a"])),
        "invalid hex color: \"a\"",
    );
    let reference = |color: &str| Reference {
        color: color.to_owned(),
        contrast: scalar(1.0),
        delta_e: scalar(0.0),
    };
    assert_refused(
        check_state_fit(&state(&["#000000"]).with_references(vec![reference("b")])),
        "invalid hex color: \"b\"",
    );
    assert!(check_state_fit(&state(&["#000000"])).is_ok());

    let overlay = |backgrounds: &[&str]| OverlayFitRequest::new(texts(backgrounds), band(), band());
    assert_refused(
        check_overlay_fit(&overlay(&[])),
        "overlay fit requires at least one background",
    );
    let whole = OverlayFitRequest {
        readability_backgrounds: texts(&["c"]),
        readable_foregrounds: vec![ReadableForeground {
            color: "d".to_owned(),
            contrast: scalar(1.0),
        }],
        rendered_references: vec![reference("e")],
        runtime_rendered_references: vec![RuntimeReference {
            color: "f".to_owned(),
            contrast: scalar(1.0),
            delta_e: scalar(0.0),
            base_step: scalar(0.0),
        }],
        ..overlay(&["b"])
    };
    let fix = |count: usize| {
        let mut request = whole.clone();
        if count > 0 {
            request.backgrounds = texts(&["#000000"]);
        }
        if count > 1 {
            request.readability_backgrounds = texts(&["#000000"]);
        }
        if count > 2 {
            request.readable_foregrounds[0].color = "#ffffff".to_owned();
        }
        if count > 3 {
            request.rendered_references[0].color = "#ffffff80".to_owned();
        }
        if count > 4 {
            request.runtime_rendered_references[0].color = "#ffffff80".to_owned();
        }
        check_overlay_fit(&request)
    };
    for (count, text) in ["b", "c", "d", "e", "f"].iter().enumerate() {
        assert_refused(fix(count), &format!("invalid hex color: \"{text}\""));
    }
    assert!(fix(5).is_ok());
    assert_refused(
        check_scene_counts(&overlay(&["#000000"]), &overlay(&["#000000", "#ffffff"])),
        "overlay pair scene counts differ",
    );
    assert!(check_scene_counts(&overlay(&["a"]), &overlay(&["b"])).is_ok());
}
