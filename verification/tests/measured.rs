//! Searches, profiles and borders over measured colors.
//!
//! The first part of this file measures colors in floating point as the program does;
//! the tests run the library's choices on those measurements.
#![allow(dead_code)]

use omarchy_zed_theme::{Error, ErrorKind, Result};
use omarchy_zed_theme::color::{gpui_blend, normalize_hex, parse_hex, render_layers, Rgb24, Rgba};
use omarchy_zed_theme::constants::{
    CANDIDATE_CHROMA_STEPS, CANDIDATE_LIGHTNESS_STEPS, OVERLAY_MAX_ALPHA,
};
use omarchy_zed_theme::map::TextMap;
use omarchy_zed_theme::palette::{Provenance, ResolvedPalette};
use omarchy_zed_theme::scalar::Scalar;
use omarchy_zed_theme::search::distinct::fit_distinct;
use omarchy_zed_theme::search::inputs::{
    check_color_fit, check_distinct_fit, check_overlay_fit, check_pair_backgrounds,
    check_scene_counts, check_state_fit,
};
use omarchy_zed_theme::search::memo::Memo;
use omarchy_zed_theme::search::overlay::{
    FillCandidate, FillFacts, FillLimits, FillTotals, OverlayPair, ReadabilityFacts, RuntimeFacts,
    SceneFacts, alpha_values, find_best_effort_overlay, find_feasible_overlay,
    gather_fills, ranked_fills,
};
use omarchy_zed_theme::search::pair_rank::{
    color_pair_facts, fill_pair_facts, rank_prefix, ColorPairTotals, FillPairTotals,
};
use omarchy_zed_theme::search::pair::{
    PairCandidate, PairFacts, PairLimits, PairSeparation, best_effort_pair,
    best_effort_pair_candidates, cvd_greedy_order, feasible_pair_candidates, fit_pair,
    pair_best_effort_frontier,
};
use omarchy_zed_theme::search::request::{
    FitBounds, MetricBand, NumericFault, OverlayFitRequest, OverlayPairRequest, PairConstraints,
    PerBackgroundContrast, StateFitRequest, finite_at_least_zero, finite_unit_interval,
    valid_contrast, validate_alpha_range,
};
use omarchy_zed_theme::search::select::{
    AvoidedFacts, ColorFacts, ColorLimits, ColorTotals, ContrastFacts, DistinctFacts,
    DistinctLimits, StateFacts, StateLimits, fit_color, fit_state,
};
use omarchy_zed_theme::search::tiers::{OverlayPass, OverlayTiers, PairPass};
use omarchy_zed_theme::syntax::{
    root_sources, select_semantic_plan, semantic_forest, FamilyFacts, Rendering, SemanticPlan,
    Separation, SeparationFloor, SyntaxContexts, MINIMUM_AUTHORED_CHROMA_RETENTION,
    MINIMUM_SEMANTIC_SALIENCY_GAP, ORDINARY_CVD_SEPARATION, ORDINARY_NORMAL_SEPARATION,
};
use omarchy_zed_theme::syntax::forest::Choice;
use omarchy_zed_theme::syntax::plan::{MergePlan, SemanticRole};
use omarchy_zed_theme::syntax::policy::{SYNTAX_ADAPTIVE_OVERLAY_FLOOR, SYNTAX_SEMANTIC_FLOOR};
use omarchy_zed_theme::syntax::profile::{
    CHROMA_EVIDENCE, HUE_CLUSTER_DEGREES, Measured, NEUTRAL_MAXIMUM_CHROMA, ProfileLimits,
    SyntaxProfile, EVIDENCE_KEYS, collect_evidence, order_evidence, profile_of,
};
use omarchy_zed_theme::theme::borders::{crosses_surface, edge, lowest, pairings};
use std::collections::BTreeSet;
use std::f64::consts::{PI, TAU};
use std::sync::{Arc, OnceLock};

/// The error for a number that a request cannot have.
fn describe(fault: NumericFault) -> Error {
    Error::invalid(match fault {
        NumericFault::BelowMinimum {
            name,
            minimum,
            value,
        } => format!(
            "{name} must be finite and at least {minimum}, got {:?}",
            f64::from_bits(value.bits)
        ),
        NumericFault::OutsideRange {
            name,
            minimum,
            maximum,
            value,
        } => format!(
            "{name} must be finite and in {minimum}..={maximum}, got {:?}",
            f64::from_bits(value.bits)
        ),
        NumericFault::Inconsistent { message } => message,
    })
}

const CBRT_TABLE_BITS: u32 = 11;
const CBRT_TABLE_SIZE: usize = 1 << CBRT_TABLE_BITS;
const CBRT_EXPONENT_REMAINDERS: [f64; 3] = [1.0, 1.259_921_049_894_873_2, 1.587_401_051_968_199_4];

fn scalar(value: f64) -> Scalar {
    Scalar {
        bits: value.to_bits(),
    }
}

fn float(value: Scalar) -> f64 {
    f64::from_bits(value.bits)
}

fn cbrt_reference(value: f64) -> f64 {
    let mut estimate = 1.0;
    for _ in 0..12 {
        estimate = (2.0 * estimate + value / (estimate * estimate)) / 3.0;
    }
    estimate
}

/// A cube root from a table of mantissas; zero and uncommon values are exact.
fn color_cbrt(value: f64) -> f64 {
    if value == 0.0 {
        return 0.0;
    }
    if !value.is_normal() || value < 0.0 {
        return value.cbrt();
    }
    let bits = value.to_bits();
    let exponent = ((bits >> 52) & 0x7ff) as i32 - 1023;
    let fraction = bits & ((1_u64 << 52) - 1);
    let index = (fraction >> (52 - CBRT_TABLE_BITS)) as usize;
    let remainder_mask = (1_u64 << (52 - CBRT_TABLE_BITS)) - 1;
    let interpolation =
        (fraction & remainder_mask) as f64 / (1_u64 << (52 - CBRT_TABLE_BITS)) as f64;
    let entry = |index: usize| cbrt_reference(1.0 + index as f64 / CBRT_TABLE_SIZE as f64);
    let lower = entry(index);
    let root = lower + (entry(index + 1) - lower) * interpolation;
    let exponent_scale = f64::from_bits(((exponent.div_euclid(3) + 1023) as u64) << 52);
    root * exponent_scale * CBRT_EXPONENT_REMAINDERS[exponent.rem_euclid(3) as usize]
}

fn luminance_contrast(left: f64, right: f64) -> f64 {
    (left.max(right) + 0.05) / (left.min(right) + 0.05)
}

fn luminance_contrast_at_least(left: f64, right: f64, target: f64) -> bool {
    left.max(right) + 0.05 >= target * (left.min(right) + 0.05)
}

/// What is measured of one opaque color.
#[derive(Clone, Copy)]
struct ColorMetrics {
    rgb: Rgb24,
    lab: [f64; 3],
    luminance: f64,
}

impl ColorMetrics {
    fn from_hex(value: &str) -> Result<Self> {
        Ok(Self::from_rgb24(parse_hex(value)?.rgb24()))
    }

    fn from_rgb24(rgb: Rgb24) -> Self {
        let linear = linear_rgb(rgb);
        Self {
            rgb,
            lab: linear_rgb_to_oklab(linear),
            luminance: 0.2126 * linear[0] + 0.7152 * linear[1] + 0.0722 * linear[2],
        }
    }

    fn blend(self, overlay: Rgb24, alpha: u8) -> Self {
        Self::from_rgb24(self.rgb.blend(overlay, alpha))
    }

    fn contrast(self, other: Self) -> f64 {
        luminance_contrast(self.luminance, other.luminance)
    }

    fn contrast_at_least(self, other: Self, target: f64) -> bool {
        luminance_contrast_at_least(self.luminance, other.luminance, target)
    }

    fn delta_e(self, other: Self) -> f64 {
        lab_distance(self.lab, other.lab)
    }

    fn chroma(self) -> f64 {
        self.lab[1].hypot(self.lab[2])
    }
}

fn lab_distance(left: [f64; 3], right: [f64; 3]) -> f64 {
    left.into_iter()
        .zip(right)
        .map(|(left, right)| (left - right).powi(2))
        .sum::<f64>()
        .sqrt()
}

fn byte(value: f64) -> u8 {
    (value.clamp(0.0, 1.0) * 255.0 + 0.5).floor() as u8
}

fn linear_rgb(rgb: Rgb24) -> [f64; 3] {
    [rgb.r, rgb.g, rgb.b].map(|channel| srgb_to_linear(f64::from(channel) / 255.0))
}

fn srgb_to_linear(channel: f64) -> f64 {
    if channel <= 0.04045 {
        channel / 12.92
    } else {
        ((channel + 0.055) / 1.055).powf(2.4)
    }
}

fn linear_to_srgb(channel: f64) -> f64 {
    let channel = channel.clamp(0.0, 1.0);
    if channel <= 0.0031308 {
        12.92 * channel
    } else {
        1.055 * channel.powf(1.0 / 2.4) - 0.055
    }
}

fn linear_rgb_to_oklab([r, g, b]: [f64; 3]) -> [f64; 3] {
    let l = 0.412_221_470_8 * r + 0.536_332_536_3 * g + 0.051_445_992_9 * b;
    let m = 0.211_903_498_2 * r + 0.680_699_545_1 * g + 0.107_396_956_6 * b;
    let s = 0.088_302_461_9 * r + 0.281_718_837_6 * g + 0.629_978_700_5 * b;
    let cube_root = if r == g && g == b {
        f64::cbrt
    } else {
        color_cbrt
    };
    let [l, m, s] = [cube_root(l), cube_root(m), cube_root(s)];
    [
        0.210_454_255_3 * l + 0.793_617_785 * m - 0.004_072_046_8 * s,
        1.977_998_495_1 * l - 2.428_592_205 * m + 0.450_593_709_9 * s,
        0.025_904_037_1 * l + 0.782_771_766_2 * m - 0.808_675_766 * s,
    ]
}

fn oklab_to_linear_rgb([lightness, a, b]: [f64; 3]) -> [f64; 3] {
    let l = lightness + 0.396_337_777_4 * a + 0.215_803_757_3 * b;
    let m = lightness - 0.105_561_345_8 * a - 0.063_854_172_8 * b;
    let s = lightness - 0.089_484_177_5 * a - 1.291_485_548 * b;
    let [l, m, s] = [l * l * l, m * m * m, s * s * s];
    [
        4.076_741_662_1 * l - 3.307_711_591_3 * m + 0.230_969_929_2 * s,
        -1.268_438_004_6 * l + 2.609_757_401_1 * m - 0.341_319_396_5 * s,
        -0.004_196_086_3 * l - 0.703_418_614_7 * m + 1.707_614_701 * s,
    ]
}

fn oklab_to_rgb24(lab: [f64; 3]) -> Rgb24 {
    let [r, g, b] = oklab_to_linear_rgb(lab);
    Rgb24 {
        r: byte(linear_to_srgb(r)),
        g: byte(linear_to_srgb(g)),
        b: byte(linear_to_srgb(b)),
    }
}

fn oklab_to_oklch([lightness, a, b]: [f64; 3]) -> [f64; 3] {
    let chroma = a.hypot(b);
    let hue = if chroma > 1e-12 {
        b.atan2(a).rem_euclid(TAU)
    } else {
        0.0
    };
    [lightness, chroma, hue]
}

fn in_gamut(lab: [f64; 3]) -> bool {
    oklab_to_linear_rgb(lab)
        .into_iter()
        .all(|channel| (-1e-9..=1.0 + 1e-9).contains(&channel))
}

fn smoothstep(edge0: f64, edge1: f64, value: f64) -> f64 {
    if edge0 == edge1 {
        return 0.0;
    }
    let position = ((value - edge0) / (edge1 - edge0)).clamp(0.0, 1.0);
    position * position * (3.0 - 2.0 * position)
}

fn endpoint_chroma_taper(lightness: f64) -> f64 {
    smoothstep(0.0, 0.12, lightness).min(smoothstep(0.0, 0.12, 1.0 - lightness))
}

/// A direction in the plane of hue and chroma.
#[derive(Clone, Copy)]
struct Hue {
    cos: f64,
    sin: f64,
}

impl Hue {
    fn new(hue: f64) -> Self {
        Self {
            cos: hue.cos(),
            sin: hue.sin(),
        }
    }

    fn at(self, lightness: f64, chroma: f64) -> [f64; 3] {
        [lightness, chroma * self.cos, chroma * self.sin]
    }

    fn holds(self, lightness: f64, chroma: f64) -> bool {
        in_gamut(self.at(lightness.clamp(0.0, 1.0), chroma.max(0.0)))
    }

    /// The greatest chroma that can be shown.
    fn chroma_limit(self, lightness: f64) -> f64 {
        let lightness = lightness.clamp(0.0, 1.0);
        let mut low = 0.0;
        let mut high = 0.5;
        while high < 4.0 && in_gamut(self.at(lightness, high)) {
            low = high;
            high *= 2.0;
        }
        for _ in 0..32 {
            let middle = (low + high) / 2.0;
            if in_gamut(self.at(lightness, middle)) {
                low = middle;
            } else {
                high = middle;
            }
        }
        low
    }

    fn map(self, lightness: f64, chroma: f64, chroma_limit: f64) -> Rgb24 {
        let lightness = lightness.clamp(0.0, 1.0);
        oklab_to_rgb24(self.at(lightness, chroma.max(0.0).min(chroma_limit)))
    }
}

/// The color with this lightness, chroma and hue, with no more chroma than can be
/// shown. The lightness is in the unit interval, the chroma is not negative, and all
/// three are finite.
fn gamut_map_oklch(lightness: f64, chroma: f64, hue: f64) -> Rgb24 {
    let hue = Hue::new(hue);
    let limit = if in_gamut(hue.at(lightness, chroma)) {
        f64::INFINITY
    } else {
        hue.chroma_limit(lightness)
    };
    hue.map(lightness, chroma, limit)
}

fn lab(value: &str) -> Result<[f64; 3]> {
    Ok(ColorMetrics::from_hex(value)?.lab)
}

fn lightness(value: &str) -> Result<f64> {
    Ok(lab(value)?[0])
}

fn delta_e(first: &str, second: &str) -> Result<f64> {
    Ok(lab_distance(lab(first)?, lab(second)?))
}

fn relative_luminance(value: &str) -> Result<f64> {
    Ok(ColorMetrics::from_hex(value)?.luminance)
}

fn contrast_ratio(first: &str, second: &str) -> Result<f64> {
    let (first, second) = (relative_luminance(first)?, relative_luminance(second)?);
    Ok(luminance_contrast(first, second))
}

fn geometric_contrast(color: &str, backgrounds: &[String]) -> Result<f64> {
    if backgrounds.is_empty() {
        return Err(Error::invalid(
            "geometric contrast requires at least one background".to_owned(),
        ));
    }
    let mean_log = backgrounds
        .iter()
        .map(|background| contrast_ratio(color, background).map(f64::ln))
        .sum::<Result<f64>>()?
        / backgrounds.len() as f64;
    Ok(mean_log.exp())
}

/// Scales the alpha of a color.
fn apply_opacity(value: &str, factor: f64) -> Result<String> {
    finite_unit_interval("opacity factor", scalar(factor)).map_err(describe)?;
    let color = parse_hex(value)?;
    let alpha = f64::from(color.a) / 255.0 * factor;
    if alpha >= 1.0 {
        Ok(color.opaque_hex())
    } else {
        let Rgb24 { r, g, b } = color.rgb24();
        Ok(format!("#{r:02x}{g:02x}{b:02x}{:02x}", byte(alpha)))
    }
}

/// The color in another lightness.
fn tone(value: &str, target_lightness: f64, chroma_scale: f64) -> Result<String> {
    finite_unit_interval("target lightness", scalar(target_lightness)).map_err(describe)?;
    if !chroma_scale.is_finite() || chroma_scale < 0.0 {
        return Err(Error::invalid(format!(
            "chroma scale must be finite and non-negative, got {chroma_scale:?}"
        )));
    }
    let [_, chroma, hue] = oklab_to_oklch(lab(value)?);
    Ok(gamut_map_oklch(
        target_lightness,
        chroma * chroma_scale * endpoint_chroma_taper(target_lightness),
        hue,
    )
    .hex())
}

const CVD_MATRICES: [[[f64; 3]; 3]; 3] = [
    [
        [0.152286, 1.052583, -0.204868],
        [0.114503, 0.786281, 0.099216],
        [-0.003882, -0.048116, 1.051998],
    ],
    [
        [0.367322, 0.860646, -0.227968],
        [0.280085, 0.672501, 0.047413],
        [-0.011820, 0.042940, 0.968881],
    ],
    [
        [1.255528, -0.076749, -0.178779],
        [-0.078411, 0.930809, 0.147602],
        [0.004733, 0.691367, 0.303900],
    ],
];

/// How a color is seen with each of three deficiencies of color vision.
type CvdLabs = [[f64; 3]; 3];

fn cvd_labs(color: Rgb24) -> CvdLabs {
    let rgb = linear_rgb(color);
    CVD_MATRICES.map(|matrix| {
        let transformed = matrix.map(|row| {
            let sum: f64 = row
                .into_iter()
                .zip(rgb)
                .map(|(factor, value)| factor * value)
                .sum();
            srgb_to_linear(linear_to_srgb(sum.clamp(0.0, 1.0)))
        });
        linear_rgb_to_oklab(transformed)
    })
}

fn cvd_distance_facts(first: &CvdLabs, second: &CvdLabs, normal_delta: f64) -> f64 {
    first
        .iter()
        .zip(second)
        .map(|(first, second)| lab_distance(*first, *second))
        .fold(normal_delta, f64::min)
}

fn cvd_distance(first: &str, second: &str) -> Result<f64> {
    let (first, second) = (ColorMetrics::from_hex(first)?, ColorMetrics::from_hex(second)?);
    Ok(cvd_distance_facts(
        &cvd_labs(first.rgb),
        &cvd_labs(second.rgb),
        first.delta_e(second),
    ))
}

/// How far a measurement may miss its limit.
const TOLERANCE: f64 = 1e-12;

/// More than the bisection of the gamut can leave below its boundary.
const GAMUT_LIMIT_SKIP_MARGIN: f64 = 1e-9;

struct Transform {
    metrics: ColorMetrics,
    distance: f64,
    retention: f64,
}

struct TransformTable {
    candidates: Vec<Transform>,
    cvd: OnceLock<Vec<CvdLabs>>,
}

impl TransformTable {
    fn cvd(&self) -> &[CvdLabs] {
        self.cvd.get_or_init(|| {
            self.candidates
                .iter()
                .map(|candidate| cvd_labs(candidate.metrics.rgb))
                .collect()
        })
    }
}

fn shortfall(actual: f64, target: f64) -> f64 {
    ((target - actual) / target.max(1e-12)).max(0.0)
}

fn excess(actual: f64, maximum: f64) -> f64 {
    ((actual - maximum) / actual.max(1e-12)).max(0.0)
}

fn lowered(value: Scalar) -> Scalar {
    scalar(float(value) - TOLERANCE)
}

fn raised(value: Scalar) -> Scalar {
    scalar(float(value) + TOLERANCE)
}

fn floor(minimum: f64) -> MetricBand {
    MetricBand::floor(scalar(minimum))
}

fn bounded(minimum: f64, preferred: f64, maximum: f64) -> MetricBand {
    MetricBand::bounded(scalar(minimum), scalar(preferred), scalar(maximum))
}

fn preferred(band: MetricBand) -> Option<f64> {
    band.preferred.map(float)
}

fn maximum(band: MetricBand) -> Option<f64> {
    band.maximum.map(float)
}

fn all_metrics(values: &[String]) -> Result<Vec<ColorMetrics>> {
    values
        .iter()
        .map(|value| ColorMetrics::from_hex(value))
        .collect()
}

fn pair_limits(constraints: PairConstraints) -> PairLimits {
    PairLimits {
        contrast: lowered(constraints.pair_contrast),
        normal: lowered(constraints.normal_delta),
        cvd: lowered(constraints.cvd_delta),
        lightness: lowered(constraints.lightness_delta),
        alternative: constraints
            .separation_alternative
            .map(|(contrast, normal, cvd)| (lowered(contrast), lowered(normal), lowered(cvd))),
    }
}

/// How far a pair misses its separation.
fn pair_deficit(
    constraints: PairConstraints,
    contrast: f64,
    normal: f64,
    cvd: f64,
    lightness: f64,
) -> (f64, f64) {
    let alternative = constraints
        .separation_alternative
        .map_or(0.0, |(other, other_normal, other_cvd)| {
            shortfall(contrast, float(other))
                .min(shortfall(normal, float(other_normal)) + shortfall(cvd, float(other_cvd)))
        });
    (
        shortfall(contrast, float(constraints.pair_contrast))
            + shortfall(normal, float(constraints.normal_delta))
            + shortfall(cvd, float(constraints.cvd_delta))
            + shortfall(lightness, float(constraints.lightness_delta)),
        alternative,
    )
}

/// The numbers of a color fit.
struct ColorFit<'a> {
    backgrounds: &'a [ColorMetrics],
    preference_backgrounds: &'a [ColorMetrics],
    per_background: &'a PerBackgroundContrast,
    avoid: &'a [ColorMetrics],
    bounds: FitBounds,
    background_lightness: f64,
}

impl ColorFit<'_> {
    fn floor(&self, index: usize) -> f64 {
        let minimum = float(self.bounds.contrast.minimum);
        match self.per_background {
            PerBackgroundContrast::Floors(floors) => float(floors[index]).max(minimum),
            PerBackgroundContrast::Uniform | PerBackgroundContrast::Ceilings(_) => minimum,
        }
    }

    fn limits_chroma(&self) -> bool {
        float(self.bounds.lower_chroma) > 0.0 || float(self.bounds.upper_chroma).is_finite()
    }

    fn hard_deficit(&self, metrics: ColorMetrics) -> f64 {
        let mut deficit = shortfall(metrics.lab[0], float(self.bounds.lower_lightness))
            + shortfall(float(self.bounds.upper_lightness), metrics.lab[0]);
        if self.limits_chroma() {
            deficit += shortfall(metrics.chroma(), float(self.bounds.lower_chroma));
            let upper = float(self.bounds.upper_chroma);
            if upper.is_finite() {
                deficit += shortfall(upper, metrics.chroma());
            }
        }
        deficit += self
            .backgrounds
            .iter()
            .enumerate()
            .map(|(index, background)| shortfall(metrics.contrast(*background), self.floor(index)))
            .sum::<f64>();
        if let PerBackgroundContrast::Ceilings(ceilings) = self.per_background {
            deficit += self
                .backgrounds
                .iter()
                .zip(ceilings)
                .map(|(background, ceiling)| excess(metrics.contrast(*background), float(*ceiling)))
                .sum::<f64>();
        }
        deficit
            + self
                .avoid
                .iter()
                .map(|other| {
                    shortfall((metrics.lab[0] - other.lab[0]).abs(), 0.05)
                        + shortfall(metrics.delta_e(*other), 0.10)
                })
                .sum::<f64>()
    }

    fn facts(&self, metrics: ColorMetrics, distance: f64, retention: f64) -> ColorFacts {
        let contrasts = self
            .backgrounds
            .iter()
            .enumerate()
            .map(|(index, background)| ContrastFacts {
                ratio: scalar(metrics.contrast(*background)),
                meets_floor: metrics.contrast_at_least(*background, self.floor(index) - TOLERANCE),
            })
            .collect::<Vec<_>>();
        let overshoot = contrasts
            .iter()
            .enumerate()
            .map(|(index, facts)| (float(facts.ratio) - self.floor(index)).max(0.0))
            .sum::<f64>();
        let contrast_gap = preferred(self.bounds.contrast).map_or(0.0, |preferred| {
            let mean_log = self
                .preference_backgrounds
                .iter()
                .map(|background| metrics.contrast(*background).ln())
                .sum::<f64>()
                / self.preference_backgrounds.len() as f64;
            (mean_log - preferred.ln()).abs()
        });
        let ceiling_excess = maximum(self.bounds.contrast).map_or(0.0, |maximum| {
            self.backgrounds
                .iter()
                .map(|background| excess(metrics.contrast(*background), maximum))
                .sum::<f64>()
        });
        ColorFacts {
            color: metrics.rgb,
            lightness: scalar(metrics.lab[0]),
            chroma: scalar(metrics.chroma()),
            avoided: self
                .avoid
                .iter()
                .map(|other| AvoidedFacts {
                    lightness_gap: scalar((metrics.lab[0] - other.lab[0]).abs()),
                    distance: scalar(metrics.delta_e(*other)),
                })
                .collect(),
            contrasts,
            totals: ColorTotals {
                contrast_gap: scalar(contrast_gap),
                background_gap: scalar((metrics.lab[0] - self.background_lightness).abs()),
                overshoot: scalar(overshoot),
                distance: scalar(distance),
                lost_retention: scalar(-retention),
                hard_deficit: scalar(self.hard_deficit(metrics)),
                ceiling_excess: scalar(ceiling_excess),
            },
        }
    }

    fn limits(&self) -> ColorLimits {
        ColorLimits {
            lower_lightness: lowered(self.bounds.lower_lightness),
            upper_lightness: raised(self.bounds.upper_lightness),
            chroma: self.limits_chroma().then(|| {
                (
                    lowered(self.bounds.lower_chroma),
                    raised(self.bounds.upper_chroma),
                )
            }),
            avoided_lightness: scalar(0.05 - TOLERANCE),
            avoided_distance: scalar(0.10 - TOLERANCE),
            maximum_contrast: self.bounds.contrast.maximum.map(raised),
            ceilings: match self.per_background {
                PerBackgroundContrast::Ceilings(ceilings) => {
                    Some(ceilings.iter().map(|ceiling| raised(*ceiling)).collect())
                }
                PerBackgroundContrast::Uniform | PerBackgroundContrast::Floors(_) => None,
            },
            prefers_contrast: self.bounds.contrast.preferred.is_some(),
            prefers_background: self.bounds.prefer_background,
        }
    }
}

struct RenderedReference {
    color: ColorMetrics,
    contrast: f64,
    delta_e: f64,
    background_contrast: f64,
}

/// The numbers of an overlay fit.
struct PreparedFill {
    request: OverlayFitRequest,
    backgrounds: Vec<ColorMetrics>,
    readability_backgrounds: Vec<ColorMetrics>,
    foregrounds: Vec<(ColorMetrics, f64)>,
    references: Vec<Vec<RenderedReference>>,
    runtime_references: Vec<Vec<RenderedReference>>,
}

fn rendered_reference(
    background: ColorMetrics,
    overlay: Rgba,
    contrast: Scalar,
    delta_e: Scalar,
    step: f64,
) -> RenderedReference {
    let color = background.blend(overlay.rgb24(), overlay.a);
    RenderedReference {
        color,
        contrast: float(contrast),
        delta_e: float(delta_e),
        background_contrast: color.contrast(background) + step,
    }
}

fn runtime_alpha(alpha: u8, opacity: f64) -> u8 {
    (f64::from(alpha) * opacity + 0.5).floor() as u8
}

impl PreparedFill {
    fn new(request: &OverlayFitRequest) -> Result<Self> {
        request.validate().map_err(describe)?;
        check_overlay_fit(request)?;
        let backgrounds = all_metrics(&request.backgrounds)?;
        let foregrounds = request
            .readable_foregrounds
            .iter()
            .map(|foreground| {
                Ok((
                    ColorMetrics::from_hex(&foreground.color)?,
                    float(foreground.contrast),
                ))
            })
            .collect::<Result<Vec<_>>>()?;
        let overlays = request
            .rendered_references
            .iter()
            .map(|reference| parse_hex(&reference.color))
            .collect::<Result<Vec<_>>>()?;
        let runtime_overlays = request
            .runtime_rendered_references
            .iter()
            .map(|reference| parse_hex(&reference.color))
            .collect::<Result<Vec<_>>>()?;
        let references = backgrounds
            .iter()
            .map(|background| {
                request
                    .rendered_references
                    .iter()
                    .zip(&overlays)
                    .map(|(reference, overlay)| {
                        rendered_reference(
                            *background,
                            *overlay,
                            reference.contrast,
                            reference.delta_e,
                            0.0,
                        )
                    })
                    .collect()
            })
            .collect();
        let runtime_references = backgrounds
            .iter()
            .map(|background| {
                request
                    .runtime_rendered_references
                    .iter()
                    .zip(&runtime_overlays)
                    .map(|(reference, overlay)| {
                        rendered_reference(
                            *background,
                            *overlay,
                            reference.contrast,
                            reference.delta_e,
                            float(reference.base_step),
                        )
                    })
                    .collect()
            })
            .collect();
        Ok(Self {
            readability_backgrounds: all_metrics(&request.readability_backgrounds)?,
            request: request.clone(),
            backgrounds,
            foregrounds,
            references,
            runtime_references,
        })
    }

    fn limits(&self) -> FillLimits {
        let distances = |values: &[Scalar]| values.iter().map(|value| lowered(*value)).collect();
        let floors = self
            .request
            .rendered_references
            .iter()
            .map(|reference| reference.delta_e)
            .collect::<Vec<_>>();
        let runtime_floors = self
            .request
            .runtime_rendered_references
            .iter()
            .map(|reference| reference.delta_e)
            .collect::<Vec<_>>();
        FillLimits {
            minimum_contrast: lowered(self.request.contrast.minimum),
            maximum_contrast: self.request.contrast.maximum.map(raised),
            minimum_distance: lowered(self.request.delta_e.minimum),
            maximum_distance: self.request.delta_e.maximum.map(raised),
            reference_distances: distances(&floors),
            runtime_distance: self
                .request
                .runtime_state
                .map_or(scalar(0.0), |state| lowered(state.delta_e)),
            runtime_reference_distances: distances(&runtime_floors),
            has_preference: self.request.contrast.preferred.is_some()
                || self.request.delta_e.preferred.is_some(),
            prefer_source_fidelity: self.request.prefer_source_fidelity,
        }
    }

    fn foregrounds_met(&self, rendered: ColorMetrics) -> Vec<bool> {
        self.foregrounds
            .iter()
            .map(|(foreground, target)| {
                rendered.contrast_at_least(*foreground, *target - TOLERANCE)
            })
            .collect()
    }

    fn foreground_deficit(&self, rendered: ColorMetrics) -> f64 {
        self.foregrounds
            .iter()
            .map(|(foreground, target)| shortfall(rendered.contrast(*foreground), *target))
            .sum::<f64>()
    }

    fn facts(&self, color: Rgb24, chroma: f64, alpha: u8, distance: f64, retention: f64) -> FillFacts {
        let contrast = self.request.contrast;
        let delta_e = self.request.delta_e;
        let minimum = float(contrast.minimum);
        let mut hard_deficit = 0.0;
        let mut ceiling_excess = 0.0;
        let mut overshoot = 0.0;
        let mut final_distance = 0.0;
        let mut preference_distance = 0.0;
        let mut scenes = Vec::with_capacity(self.backgrounds.len());

        for (index, background) in self.backgrounds.iter().enumerate() {
            let rendered = background.blend(color, alpha);
            let ratio = rendered.contrast(*background);
            let rendered_distance = rendered.delta_e(*background);
            let references = &self.references[index];
            hard_deficit += shortfall(ratio, minimum);
            ceiling_excess += maximum(contrast).map_or(0.0, |maximum| excess(ratio, maximum));
            hard_deficit += references
                .iter()
                .map(|reference| {
                    shortfall(rendered.contrast(reference.color), reference.contrast)
                })
                .sum::<f64>();
            hard_deficit += self.foreground_deficit(rendered);

            let shown = self.request.runtime_state.map(|state| {
                let shown = background.blend(color, runtime_alpha(alpha, float(state.opacity)));
                let shown_ratio = shown.contrast(*background);
                hard_deficit += shortfall(shown_ratio, float(state.contrast));
                hard_deficit += self.runtime_references[index]
                    .iter()
                    .map(|reference| {
                        shortfall(shown.contrast(reference.color), reference.contrast)
                            + shortfall(shown_ratio, reference.background_contrast)
                    })
                    .sum::<f64>();
                hard_deficit += self.foreground_deficit(shown);
                (state, shown, shown_ratio)
            });

            hard_deficit += shortfall(rendered_distance, float(delta_e.minimum));
            ceiling_excess +=
                maximum(delta_e).map_or(0.0, |maximum| excess(rendered_distance, maximum));
            hard_deficit += references
                .iter()
                .map(|reference| shortfall(rendered.delta_e(reference.color), reference.delta_e))
                .sum::<f64>();
            overshoot += (ratio - minimum).max(0.0);
            final_distance += rendered_distance;
            if let Some(preferred) = preferred(contrast) {
                preference_distance += (ratio - preferred).abs() / preferred;
            }
            if let Some(preferred) = preferred(delta_e) {
                preference_distance += (rendered_distance - preferred).abs();
            }

            let runtime = shown.map(|(state, shown, shown_ratio)| {
                let target = float(state.contrast);
                let shown_distance = shown.delta_e(*background);
                let adjusted_ratio = shown_ratio + minimum - target;
                let references = &self.runtime_references[index];
                hard_deficit += shortfall(shown_distance, float(state.delta_e));
                hard_deficit += references
                    .iter()
                    .map(|reference| shortfall(shown.delta_e(reference.color), reference.delta_e))
                    .sum::<f64>();
                overshoot += (adjusted_ratio - minimum).max(0.0);
                final_distance += shown_distance;
                RuntimeFacts {
                    target_met: shown.contrast_at_least(*background, target - TOLERANCE),
                    references_met: references
                        .iter()
                        .map(|reference| {
                            shown
                                .contrast_at_least(reference.color, reference.contrast - TOLERANCE)
                        })
                        .collect(),
                    background_steps_met: references
                        .iter()
                        .map(|reference| {
                            shown.contrast_at_least(
                                *background,
                                reference.background_contrast - TOLERANCE,
                            )
                        })
                        .collect(),
                    foregrounds_met: self.foregrounds_met(shown),
                    adjusted_ratio: scalar(adjusted_ratio),
                    distance: scalar(shown_distance),
                    reference_distances: references
                        .iter()
                        .map(|reference| scalar(shown.delta_e(reference.color)))
                        .collect(),
                }
            });
            scenes.push(SceneFacts {
                contrast_met: rendered.contrast_at_least(*background, minimum - TOLERANCE),
                references_met: references
                    .iter()
                    .map(|reference| {
                        rendered.contrast_at_least(reference.color, reference.contrast - TOLERANCE)
                    })
                    .collect(),
                foregrounds_met: self.foregrounds_met(rendered),
                ratio: scalar(ratio),
                distance: scalar(rendered_distance),
                reference_distances: references
                    .iter()
                    .map(|reference| scalar(rendered.delta_e(reference.color)))
                    .collect(),
                runtime,
            });
        }

        let readability = self
            .readability_backgrounds
            .iter()
            .map(|background| {
                let rendered = background.blend(color, alpha);
                hard_deficit += self.foreground_deficit(rendered);
                let runtime_foregrounds_met = self.request.runtime_state.map_or(vec![], |state| {
                    let shown = background.blend(color, runtime_alpha(alpha, float(state.opacity)));
                    hard_deficit += self.foreground_deficit(shown);
                    self.foregrounds_met(shown)
                });
                ReadabilityFacts {
                    foregrounds_met: self.foregrounds_met(rendered),
                    runtime_foregrounds_met,
                }
            })
            .collect();

        FillFacts {
            emitted: Rgba::from_rgb_alpha(color, alpha),
            source_chroma: scalar(chroma),
            scenes,
            readability,
            totals: FillTotals {
                hard_deficit: scalar(hard_deficit),
                ceiling_excess: scalar(ceiling_excess),
                overshoot: scalar(overshoot),
                final_distance: scalar(final_distance),
                preference_distance: scalar(preference_distance),
                distance: scalar(distance),
                lost_retention: scalar(-retention),
                lost_alpha: scalar(-f64::from(alpha) / 255.0),
            },
        }
    }

    fn tried(
        &self,
        limits: &FillLimits,
        opaque: &Transform,
        alphas: &[u8],
    ) -> Vec<Option<FillCandidate>> {
        alphas
            .iter()
            .map(|alpha| limits.evaluate_alpha(&self.facts_of(opaque, *alpha)))
            .collect()
    }

    fn tried_best_effort(
        &self,
        limits: &FillLimits,
        opaque: &Transform,
        alphas: &[u8],
    ) -> Vec<FillCandidate> {
        alphas
            .iter()
            .map(|alpha| limits.evaluate_alpha_best_effort(&self.facts_of(opaque, *alpha)))
            .collect()
    }

    fn facts_of(&self, opaque: &Transform, alpha: u8) -> FillFacts {
        self.facts(
            opaque.metrics.rgb,
            opaque.metrics.chroma(),
            alpha,
            opaque.distance,
            opaque.retention,
        )
    }

    /// The fills to pair: feasible ones, and those that miss if asked for or if there
    /// is no other.
    fn pairing_candidates(
        &self,
        source: &Transform,
        table: &TransformTable,
        alphas: &[u8],
        include_best_effort: bool,
    ) -> Vec<FillCandidate> {
        let limits = self.limits();
        let groups = table
            .candidates
            .iter()
            .map(|opaque| self.tried(&limits, opaque, alphas))
            .collect::<Vec<_>>();
        let mut fills = gather_fills(&groups, &self.tried(&limits, source, alphas));
        if include_best_effort || fills.is_empty() {
            let groups = table
                .candidates
                .iter()
                .map(|opaque| {
                    self.tried_best_effort(&limits, opaque, alphas)
                        .into_iter()
                        .map(Some)
                        .collect()
                })
                .collect::<Vec<_>>();
            let source = self
                .tried_best_effort(&limits, source, alphas)
                .into_iter()
                .map(Some)
                .collect();
            fills.extend(gather_fills(&groups, &source));
        }
        ranked_fills(&fills)
            .into_iter()
            .map(|index| fills[index].clone())
            .collect()
    }
}

/// The part of a fill's rank that pairing adds up.
fn prefix(fill: &FillCandidate) -> Vec<f64> {
    assert!(fill.rank.len() >= 5, "a fill has a full rank");
    rank_prefix(fill, scalar(TOLERANCE))
        .into_iter()
        .map(float)
        .collect()
}

/// A fill as it is seen on every background.
struct Rendered {
    shown: Vec<ColorMetrics>,
    salience: Vec<f64>,
    cvd: OnceLock<Vec<CvdLabs>>,
}

impl Rendered {
    fn new(fill: &FillCandidate, prepared: &PreparedFill) -> Self {
        let shown = prepared
            .backgrounds
            .iter()
            .map(|background| background.blend(fill.emitted.rgb24(), fill.emitted.a))
            .collect::<Vec<_>>();
        let salience = shown
            .iter()
            .zip(&prepared.backgrounds)
            .map(|(shown, background)| shown.contrast(*background))
            .collect();
        Self {
            shown,
            salience,
            cvd: OnceLock::new(),
        }
    }

    fn cvd(&self) -> &[CvdLabs] {
        self.cvd
            .get_or_init(|| self.shown.iter().map(|shown| cvd_labs(shown.rgb)).collect())
    }
}

fn measure_overlays(
    constraints: PairConstraints,
    fills: (&FillCandidate, &FillCandidate),
    rendered: (&Rendered, &Rendered),
) -> PairFacts {
    let mut contrast = f64::INFINITY;
    let mut normal = f64::INFINITY;
    let mut lightness = f64::INFINITY;
    for (left, right) in rendered.0.shown.iter().zip(&rendered.1.shown) {
        contrast = contrast.min(left.contrast(*right));
        normal = normal.min(left.delta_e(*right));
        lightness = lightness.min((left.lab[0] - right.lab[0]).abs());
    }
    let imbalance = rendered
        .0
        .salience
        .iter()
        .zip(&rendered.1.salience)
        .map(|(left, right)| (left - right).abs())
        .sum::<f64>();
    let cvd = rendered
        .0
        .cvd()
        .iter()
        .zip(rendered.1.cvd())
        .map(|(left, right)| cvd_distance_facts(left, right, f64::INFINITY))
        .fold(normal, f64::min);

    let (left, right) = (prefix(fills.0), prefix(fills.1));
    let both = |index: usize| scalar(left[index] + right[index]);
    let floor = float(constraints.minimum_chroma);
    let (missed, alternative) = pair_deficit(constraints, contrast, normal, cvd, lightness);
    let deficit = missed
        + shortfall(float(fills.0.source_chroma), floor)
        + shortfall(float(fills.1.source_chroma), floor)
        + alternative;
    let sum = |index: usize| float(fills.0.rank[index]) + float(fills.1.rank[index]);
    let separation = PairSeparation {
        contrast: scalar(contrast),
        normal: scalar(normal),
        cvd: scalar(cvd),
        lightness: scalar(lightness),
    };
    let totals = FillPairTotals {
        prefix: (both(0), both(1), both(2)),
        imbalance: scalar(imbalance),
        deficit: scalar(sum(0) + deficit),
        rank: (scalar(sum(1)), scalar(sum(2))),
        lost_normal: scalar(-normal),
        lost_cvd: scalar(-cvd),
        lost_distance: scalar(-(normal + cvd)),
        lost_contrast: scalar(-(contrast + lightness)),
    };
    fill_pair_facts(separation, totals, constraints.balance_rendered_salience)
}

/// The candidates of one side of a pair.
struct PairSide {
    backgrounds: Vec<ColorMetrics>,
    table: Arc<TransformTable>,
}

impl PairSide {
    fn candidates(
        &self,
        constraints: PairConstraints,
        foregrounds: &[(ColorMetrics, f64)],
    ) -> Vec<PairCandidate> {
        self.table
            .candidates
            .iter()
            .map(|candidate| {
                let metrics = candidate.metrics;
                let shortfalls = std::iter::once(shortfall(
                    metrics.chroma(),
                    float(constraints.minimum_chroma),
                ))
                .chain(self.backgrounds.iter().map(|background| {
                    shortfall(
                        metrics.contrast(*background),
                        float(constraints.foreground_contrast),
                    )
                }))
                .chain(foregrounds.iter().map(|(foreground, target)| {
                    shortfall(metrics.contrast(*foreground), *target)
                }))
                .collect::<Vec<_>>();
                let count = self.backgrounds.len();
                let deficit = shortfalls[0]
                    + shortfalls[1..=count].iter().sum::<f64>()
                    + shortfalls[count + 1..].iter().sum::<f64>();
                let background_distance = if constraints.prefer_background {
                    self.backgrounds
                        .iter()
                        .map(|background| metrics.delta_e(*background))
                        .sum()
                } else {
                    0.0
                };
                PairCandidate {
                    color: metrics.rgb,
                    distance: scalar(candidate.distance),
                    lost_retention: scalar(-candidate.retention),
                    background_distance: scalar(background_distance),
                    shortfalls: shortfalls.into_iter().map(scalar).collect(),
                    deficit: scalar(deficit),
                    deficit_ceiling: scalar(deficit + TOLERANCE),
                }
            })
            .collect()
    }

    fn colors(&self, order: &[usize]) -> Vec<Rgb24> {
        order
            .iter()
            .map(|index| self.table.candidates[*index].metrics.rgb)
            .collect()
    }

    /// Keeps the most faithful candidates and covers the rest of the color space.
    fn frontier(&self, order: &[usize]) -> Vec<usize> {
        let distance = |left: usize, right: usize| {
            let (left, right) = (order[left], order[right]);
            let normal = self.table.candidates[left]
                .metrics
                .delta_e(self.table.candidates[right].metrics);
            let cvd = self.table.cvd();
            scalar(normal.min(cvd_distance_facts(&cvd[left], &cvd[right], normal)))
        };
        pair_best_effort_frontier(order.len(), &distance)
            .into_iter()
            .map(|position| order[position])
            .collect()
    }
}

fn measure_pair(
    constraints: PairConstraints,
    sides: (&PairSide, &PairSide),
    candidates: (&PairCandidate, &PairCandidate),
    indices: (usize, usize),
) -> PairFacts {
    let first = &sides.0.table.candidates[indices.0];
    let second = &sides.1.table.candidates[indices.1];
    let contrast = first.metrics.contrast(second.metrics);
    let normal = first.metrics.delta_e(second.metrics);
    let cvd = cvd_distance_facts(
        &sides.0.table.cvd()[indices.0],
        &sides.1.table.cvd()[indices.1],
        normal,
    );
    let lightness = (first.metrics.lab[0] - second.metrics.lab[0]).abs();
    let background =
        float(candidates.0.background_distance) + float(candidates.1.background_distance);
    let (missed, alternative) = pair_deficit(constraints, contrast, normal, cvd, lightness);
    let separation = PairSeparation {
        contrast: scalar(contrast),
        normal: scalar(normal),
        cvd: scalar(cvd),
        lightness: scalar(lightness),
    };
    let totals = ColorPairTotals {
        background: scalar(background),
        transform: scalar(first.distance + second.distance),
        lost_retention: scalar(-(first.retention + second.retention)),
        first_distance: scalar(first.distance),
        own_deficit: scalar(float(candidates.0.deficit) + float(candidates.1.deficit)),
        pair_deficit: scalar(missed + alternative),
    };
    color_pair_facts(separation, totals, constraints.prefer_background)
}

/// Runs searches and keeps what they share.
struct Search {
    tables: Memo<Result<Arc<TransformTable>>>,
    colors: Memo<Result<String>>,
    states: Memo<Result<String>>,
}

impl Default for Search {
    fn default() -> Self {
        Self {
            tables: Memo::new(),
            colors: Memo::new(),
            states: Memo::new(),
        }
    }
}

/// The answer to a question that was asked before.
fn remembered<V: Clone>(memo: &Memo<V>, question: &str) -> V {
    match memo.get(question) {
        Some(answer) => answer.clone(),
        None => unreachable!("the question was asked"),
    }
}

impl Search {
    fn candidate_colors(seed: &str) -> Result<Vec<Rgb24>> {
        let [_, chroma, hue] = oklab_to_oklch(ColorMetrics::from_hex(seed)?.lab);
        let hue = Hue::new(hue);
        let mut unique = Vec::new();
        for tone in 0..=CANDIDATE_LIGHTNESS_STEPS {
            let lightness = f64::from(tone) / f64::from(CANDIDATE_LIGHTNESS_STEPS);
            let taper = endpoint_chroma_taper(lightness);
            let limit = if hue.holds(lightness, chroma * taper + GAMUT_LIMIT_SKIP_MARGIN) {
                f64::INFINITY
            } else {
                hue.chroma_limit(lightness)
            };
            for step in 0..=CANDIDATE_CHROMA_STEPS {
                let scale = 1.0 - f64::from(step) / f64::from(CANDIDATE_CHROMA_STEPS);
                unique.push(hue.map(lightness, chroma * scale * taper, limit));
            }
        }
        unique.sort_unstable_by_key(|color| color.pack());
        unique.dedup_by_key(|color| color.pack());
        Ok(unique)
    }

    fn build_table(seed: &str) -> Result<TransformTable> {
        normalize_hex(seed, "transform seed")?;
        let source = ColorMetrics::from_hex(seed)?;
        let mut candidates = Self::candidate_colors(seed)?
            .into_iter()
            .map(|color| {
                let metrics = ColorMetrics::from_rgb24(color);
                Transform {
                    distance: lab_distance(metrics.lab, source.lab),
                    retention: metrics.chroma() / source.chroma().max(1e-12),
                    metrics,
                }
            })
            .collect::<Vec<_>>();
        candidates.sort_unstable_by(|left, right| {
            left.distance
                .total_cmp(&right.distance)
                .then_with(|| left.metrics.rgb.pack().cmp(&right.metrics.rgb.pack()))
        });
        Ok(TransformTable {
            candidates,
            cvd: OnceLock::new(),
        })
    }

    /// Prepares the tables of several seeds at once.
    fn prewarm<'a>(&mut self, seeds: impl IntoIterator<Item = &'a str>) -> Result<()> {
        let seeds = seeds
            .into_iter()
            .filter(|seed| self.tables.get(seed).is_none())
            .collect::<BTreeSet<_>>()
            .into_iter()
            .collect::<Vec<_>>();
        let tables = seeds
            .iter()
            .map(|seed| Self::build_table(seed).map(Arc::new))
            .collect::<Vec<_>>();
        for (seed, table) in seeds.iter().zip(tables) {
            let table = table?;
            self.tables.ask(seed, &|_| Ok(Arc::clone(&table)));
        }
        Ok(())
    }

    fn table(&mut self, seed: &str) -> Result<Arc<TransformTable>> {
        self.tables
            .ask(seed, &|seed| Self::build_table(&seed).map(Arc::new));
        remembered(&self.tables, seed)
    }

    fn fit_color(&mut self, seed: &str, backgrounds: &[String], target: f64) -> Result<String> {
        self.fit_color_avoiding(seed, backgrounds, target, &[])
    }

    fn fit_color_avoiding(
        &mut self,
        seed: &str,
        backgrounds: &[String],
        target: f64,
        avoid: &[String],
    ) -> Result<String> {
        self.fit_color_bounded(
            seed,
            backgrounds,
            avoid,
            &PerBackgroundContrast::Uniform,
            FitBounds::new(floor(target)),
        )
    }

    fn fit_color_bounded(
        &mut self,
        seed: &str,
        backgrounds: &[String],
        avoid: &[String],
        per_background: &PerBackgroundContrast,
        bounds: FitBounds,
    ) -> Result<String> {
        self.fit_color_preferring(seed, backgrounds, backgrounds, avoid, per_background, bounds)
    }

    fn fit_color_preferring(
        &mut self,
        seed: &str,
        backgrounds: &[String],
        preference_backgrounds: &[String],
        avoid: &[String],
        per_background: &PerBackgroundContrast,
        bounds: FitBounds,
    ) -> Result<String> {
        bounds.validate().map_err(describe)?;
        per_background
            .validate(backgrounds.len())
            .map_err(describe)?;
        let query = format!(
            "{:?}",
            (seed, backgrounds, preference_backgrounds, avoid, per_background, bounds)
        );
        let table = self.table(seed);
        let solve = |_: String| {
            Self::fit_color_uncached(
                table.clone(),
                seed,
                (backgrounds, preference_backgrounds, avoid),
                per_background,
                bounds,
            )
        };
        self.colors.ask(&query, &solve);
        remembered(&self.colors, &query)
    }

    fn fit_color_uncached(
        table: Result<Arc<TransformTable>>,
        seed: &str,
        (backgrounds, preference_backgrounds, avoid): (&[String], &[String], &[String]),
        per_background: &PerBackgroundContrast,
        bounds: FitBounds,
    ) -> Result<String> {
        check_color_fit(
            seed,
            &backgrounds.to_vec(),
            &preference_backgrounds.to_vec(),
            &avoid.to_vec(),
        )?;
        let source = ColorMetrics::from_hex(seed)?;
        let backgrounds = all_metrics(backgrounds)?;
        let preference_backgrounds = all_metrics(preference_backgrounds)?;
        let avoid = all_metrics(avoid)?;
        let fit = ColorFit {
            backgrounds: &backgrounds,
            preference_backgrounds: &preference_backgrounds,
            per_background,
            avoid: &avoid,
            bounds,
            background_lightness: preference_backgrounds
                .iter()
                .map(|metrics| metrics.lab[0])
                .sum::<f64>()
                / preference_backgrounds.len() as f64,
        };
        let retention = source.chroma() / source.chroma().max(1e-12);
        let table = table?
            .candidates
            .iter()
            .map(|candidate| fit.facts(candidate.metrics, candidate.distance, candidate.retention))
            .collect();
        Ok(fit_color(
            seed,
            &fit.limits(),
            &fit.facts(source, 0.0, retention),
            &table,
        ))
    }

    fn fit_state(&mut self, seed: &str, request: &StateFitRequest) -> Result<String> {
        request.validate().map_err(describe)?;
        let query = format!("{:?}", (seed, request));
        let table = self.table(seed);
        self.states
            .ask(&query, &|_| Self::fit_state_uncached(table.clone(), request));
        remembered(&self.states, &query)
    }

    fn fit_state_uncached(
        table: Result<Arc<TransformTable>>,
        request: &StateFitRequest,
    ) -> Result<String> {
        check_state_fit(request)?;
        let backgrounds = all_metrics(&request.backgrounds)?;
        let references = request
            .references
            .iter()
            .map(|reference| {
                Ok((
                    ColorMetrics::from_hex(&reference.color)?,
                    float(reference.contrast),
                    float(reference.delta_e),
                ))
            })
            .collect::<Result<Vec<_>>>()?;
        let minimum = float(request.contrast.minimum);
        let minimum_chroma = float(request.minimum_chroma);
        let facts = |candidate: &Transform| {
            let metrics = candidate.metrics;
            let colorless = if minimum_chroma > 0.0 {
                shortfall(metrics.chroma(), minimum_chroma)
            } else {
                0.0
            };
            let mut missed = 0.0;
            let mut hard_deficit = colorless;
            let mut ceiling_excess = 0.0;
            let mut preference_distance = 0.0;
            let mut final_distance = 0.0;
            let mut overshoot = 0.0;
            for background in &backgrounds {
                let ratio = metrics.contrast(*background);
                let distance = metrics.delta_e(*background);
                let short = shortfall(ratio, minimum)
                    + shortfall(distance, float(request.delta_e.minimum));
                missed += short;
                hard_deficit += short;
                if let Some(maximum) = maximum(request.contrast) {
                    ceiling_excess += excess(ratio, maximum);
                }
                if let Some(maximum) = maximum(request.delta_e) {
                    ceiling_excess += excess(distance, maximum);
                }
                overshoot += (ratio - minimum).max(0.0);
                final_distance += distance;
                if let Some(preferred) = preferred(request.contrast) {
                    preference_distance += (ratio - preferred).abs() / preferred;
                }
                if let Some(preferred) = preferred(request.delta_e) {
                    preference_distance += (distance - preferred).abs();
                }
            }
            for (reference, contrast, delta_e) in &references {
                let ratio = metrics.contrast(*reference);
                let short = shortfall(ratio, *contrast)
                    + shortfall(metrics.delta_e(*reference), *delta_e);
                missed += short;
                hard_deficit += short;
                overshoot += (ratio - contrast).max(0.0);
            }
            StateFacts {
                color: metrics.rgb,
                chroma: scalar(metrics.chroma()),
                deficit: scalar(missed + ceiling_excess),
                hard_deficit: scalar(hard_deficit),
                ceiling_excess: scalar(ceiling_excess),
                preference_distance: scalar(preference_distance),
                final_distance: scalar(final_distance),
                overshoot: scalar(overshoot),
                distance: scalar(candidate.distance),
                lost_retention: scalar(-candidate.retention),
            }
        };
        let limits = StateLimits {
            chroma_floor: (minimum_chroma > 0.0).then(|| lowered(request.minimum_chroma)),
            slack: scalar(TOLERANCE),
            has_preference: request.contrast.preferred.is_some()
                || request.delta_e.preferred.is_some(),
        };
        let table = table?.candidates.iter().map(facts).collect();
        match fit_state(limits, &table) {
            Some(color) => Ok(color.hex()),
            None => unreachable!("a transform table holds black and white"),
        }
    }

    fn fit_distinct_colors(
        &mut self,
        seeds: &[String],
        backgrounds: &[String],
        target: f64,
        normal_delta_e: f64,
        cvd_delta_e: f64,
    ) -> Result<Vec<String>> {
        valid_contrast("distinct color target contrast", scalar(target)).map_err(describe)?;
        finite_at_least_zero("distinct color normal delta E", scalar(normal_delta_e))
            .map_err(describe)?;
        finite_at_least_zero("distinct color CVD delta E", scalar(cvd_delta_e))
            .map_err(describe)?;
        check_distinct_fit(&seeds.to_vec(), &backgrounds.to_vec())?;
        let background_metrics = all_metrics(backgrounds)?;
        let limits = DistinctLimits {
            slack: scalar(TOLERANCE),
            normal: scalar(normal_delta_e - TOLERANCE),
            cvd: scalar(cvd_delta_e - TOLERANCE),
        };
        let mut names = Vec::new();
        let mut tables = Vec::new();
        for seed in seeds {
            names.push(self.fit_color(seed, backgrounds, target)?);
            tables.push(self.table(seed)?);
        }
        let sources = all_metrics(seeds)?;
        let fitted = all_metrics(&names)?;
        let measure = |seed: usize, chosen: Vec<Rgb24>| {
            let others = chosen
                .iter()
                .map(|color| (ColorMetrics::from_rgb24(*color), cvd_labs(*color)))
                .collect::<Vec<_>>();
            let facts = |metrics: ColorMetrics, distance: f64, retention: f64| {
                let ratios = background_metrics
                    .iter()
                    .map(|background| metrics.contrast(*background))
                    .collect::<Vec<_>>();
                let seen = cvd_labs(metrics.rgb);
                let normal = others
                    .iter()
                    .map(|(other, _)| metrics.delta_e(*other))
                    .fold(f64::INFINITY, f64::min);
                let cvd = others
                    .iter()
                    .map(|(other, other_cvd)| {
                        cvd_distance_facts(&seen, other_cvd, metrics.delta_e(*other))
                    })
                    .fold(f64::INFINITY, f64::min);
                DistinctFacts {
                    color: metrics.rgb,
                    contrast_deficit: scalar(
                        ratios.iter().map(|ratio| shortfall(*ratio, target)).sum(),
                    ),
                    normal: scalar(normal),
                    cvd: scalar(cvd),
                    normal_loss: scalar(-normal.min(normal_delta_e)),
                    cvd_loss: scalar(-cvd.min(cvd_delta_e)),
                    overshoot: scalar(ratios.iter().map(|ratio| (ratio - target).max(0.0)).sum()),
                    distance: scalar(distance),
                    lost_retention: scalar(-retention),
                }
            };
            let (own, source) = (fitted[seed], sources[seed]);
            let mut candidates = vec![facts(
                own,
                lab_distance(own.lab, source.lab),
                own.chroma() / source.chroma().max(1e-12),
            )];
            candidates.extend(tables[seed].candidates.iter().map(|candidate| {
                facts(candidate.metrics, candidate.distance, candidate.retention)
            }));
            candidates
        };
        let own = fitted.iter().map(|metrics| metrics.rgb).collect();
        let colors = fit_distinct(&own, limits, &measure);
        for (name, color) in names.iter_mut().zip(colors).skip(1) {
            *name = color.hex();
        }
        Ok(names)
    }

    fn fit_pair(
        &mut self,
        first_seed: &str,
        second_seed: &str,
        backgrounds: &[String],
        constraints: PairConstraints,
    ) -> Result<[String; 2]> {
        self.fit_pair_readable(
            (first_seed, backgrounds),
            (second_seed, backgrounds),
            constraints,
            &[],
        )
    }

    fn fit_pair_readable(
        &mut self,
        first: (&str, &[String]),
        second: (&str, &[String]),
        constraints: PairConstraints,
        readable_foregrounds: &[(String, f64)],
    ) -> Result<[String; 2]> {
        constraints.validate().map_err(describe)?;
        check_pair_backgrounds(&first.1.to_vec(), &second.1.to_vec())?;
        let foregrounds = readable_foregrounds
            .iter()
            .enumerate()
            .map(|(index, (foreground, target))| {
                let metrics = ColorMetrics::from_hex(foreground).map_err(|error| {
                    error.context(&format!("readable_foregrounds[{index}].foreground"))
                })?;
                valid_contrast(
                    &format!("readable_foregrounds[{index}].contrast"),
                    scalar(*target),
                )
                .map_err(describe)?;
                Ok((metrics, *target))
            })
            .collect::<Result<Vec<_>>>()?;
        let first = PairSide {
            backgrounds: all_metrics(first.1)?,
            table: self.table(first.0)?,
        };
        let second = PairSide {
            backgrounds: all_metrics(second.1)?,
            table: self.table(second.0)?,
        };
        let firsts = first.candidates(constraints, &foregrounds);
        let seconds = second.candidates(constraints, &foregrounds);
        let slack = scalar(TOLERANCE);
        let background = constraints.prefer_background;

        let left = feasible_pair_candidates(slack, &firsts, background);
        let right = feasible_pair_candidates(slack, &seconds, background);
        let (left_colors, right_colors) = (first.colors(&left), second.colors(&right));
        let measure = |one: usize, two: usize| {
            let (one, two) = (left[one], right[two]);
            measure_pair(
                constraints,
                (&first, &second),
                (&firsts[one], &seconds[two]),
                (one, two),
            )
        };
        if let Some((one, two)) =
            fit_pair(&left_colors, &right_colors, pair_limits(constraints), &measure)
        {
            return Ok([left_colors[one].hex(), right_colors[two].hex()]);
        }

        let left = first.frontier(&best_effort_pair_candidates(&firsts, background));
        let right = second.frontier(&best_effort_pair_candidates(&seconds, background));
        let (left_colors, right_colors) = (first.colors(&left), second.colors(&right));
        let measure = |one: usize, two: usize| {
            let (one, two) = (left[one], right[two]);
            measure_pair(
                constraints,
                (&first, &second),
                (&firsts[one], &seconds[two]),
                (one, two),
            )
        };
        match best_effort_pair(&left_colors, &right_colors, &measure) {
            Some((one, two)) => Ok([left_colors[one].hex(), right_colors[two].hex()]),
            None => unreachable!("a transform table holds black and white"),
        }
    }

    fn source_of(seed: &str) -> Result<Transform> {
        Ok(Transform {
            metrics: ColorMetrics::from_hex(seed)?,
            distance: 0.0,
            retention: 1.0,
        })
    }

    fn feasible_overlay(
        &mut self,
        seed: &str,
        prepared: &PreparedFill,
        source: &Transform,
        alphas: &[u8],
    ) -> Result<Option<Rgba>> {
        let limits = prepared.limits();
        let tried = prepared.tried(&limits, source, alphas);
        if let Some(color) = find_feasible_overlay(&tried, &Vec::new()) {
            return Ok(Some(color));
        }
        let table = self.table(seed)?;
        let fills = table
            .candidates
            .iter()
            .flat_map(|opaque| prepared.tried(&limits, opaque, alphas))
            .collect();
        Ok(find_feasible_overlay(&tried, &fills))
    }

    fn best_effort_overlay(
        &mut self,
        seed: &str,
        prepared: &PreparedFill,
        source: &Transform,
        alphas: &[u8],
    ) -> Result<Rgba> {
        let limits = prepared.limits();
        let tried = prepared.tried_best_effort(&limits, source, alphas);
        let table = self.table(seed)?;
        let fills = table
            .candidates
            .iter()
            .flat_map(|opaque| prepared.tried_best_effort(&limits, opaque, alphas))
            .collect();
        match find_best_effort_overlay(&tried, &fills) {
            Some(color) => Ok(color),
            None => unreachable!("a checked range of alphas is not empty"),
        }
    }

    /// Runs the passes of a search until one finds a fill.
    fn overlay_in_tiers(
        &mut self,
        seed: &str,
        prepared: &PreparedFill,
        tiers: OverlayTiers,
    ) -> Result<Option<Rgba>> {
        let source = Self::source_of(seed)?;
        validate_alpha_range(tiers.minimum, tiers.preferred_maximum).map_err(describe)?;
        validate_alpha_range(tiers.preferred_maximum, tiers.maximum).map_err(describe)?;
        let mut pass = OverlayPass::Preferred;
        loop {
            let alphas = tiers.alphas(pass);
            let found = match pass {
                OverlayPass::BestEffort => {
                    Some(self.best_effort_overlay(seed, prepared, &source, &alphas)?)
                }
                _ => self.feasible_overlay(seed, prepared, &source, &alphas)?,
            };
            match tiers.next_pass(pass, found.is_some()) {
                Some(next) => pass = next,
                None => return Ok(found),
            }
        }
    }

    fn try_fit_overlay_preferred(
        &mut self,
        seed: &str,
        request: &OverlayFitRequest,
        preferred_maximum: u8,
        maximum: u8,
    ) -> Result<Option<String>> {
        let prepared = PreparedFill::new(request)?;
        let tiers = OverlayTiers {
            minimum: 1,
            preferred_maximum,
            maximum,
            allows_misses: false,
        };
        Ok(self.overlay_in_tiers(seed, &prepared, tiers)?.map(Rgba::hex))
    }

    fn fit_overlay_preferred(
        &mut self,
        seed: &str,
        request: &OverlayFitRequest,
        preferred_maximum: u8,
        maximum: u8,
    ) -> Result<String> {
        let prepared = PreparedFill::new(request)?;
        let tiers = OverlayTiers {
            minimum: 1,
            preferred_maximum,
            maximum,
            allows_misses: true,
        };
        self.last_fill(seed, &prepared, tiers)
    }

    fn last_fill(
        &mut self,
        seed: &str,
        prepared: &PreparedFill,
        tiers: OverlayTiers,
    ) -> Result<String> {
        match self.overlay_in_tiers(seed, prepared, tiers)? {
            Some(color) => Ok(color.hex()),
            None => unreachable!("the last pass always finds a fill"),
        }
    }

    fn fit_overlay(&mut self, seed: &str, request: &OverlayFitRequest) -> Result<String> {
        self.fit_overlay_alpha_range(seed, request, 1, OVERLAY_MAX_ALPHA)
    }

    fn fit_overlay_alpha_range(
        &mut self,
        seed: &str,
        request: &OverlayFitRequest,
        minimum_alpha: u8,
        maximum_alpha: u8,
    ) -> Result<String> {
        validate_alpha_range(minimum_alpha, maximum_alpha).map_err(describe)?;
        let prepared = PreparedFill::new(request)?;
        let tiers = OverlayTiers {
            minimum: minimum_alpha,
            preferred_maximum: maximum_alpha,
            maximum: maximum_alpha,
            allows_misses: true,
        };
        self.last_fill(seed, &prepared, tiers)
    }

    fn fit_overlay_pair(
        &mut self,
        first_seed: &str,
        second_seed: &str,
        request: &OverlayPairRequest,
    ) -> Result<[String; 2]> {
        request.validate().map_err(describe)?;
        let mut pass = PairPass::Strict;
        loop {
            let misses = pass.allows_misses();
            let found = self.solve_overlay_pair(first_seed, second_seed, request, misses)?;
            match (pass.next_pass(found.is_some()), found) {
                (Some(next), _) => pass = next,
                (None, Some(colors)) => return Ok(colors),
                (None, None) => unreachable!("a best-effort overlay pair always exists"),
            }
        }
    }

    fn solve_overlay_pair(
        &mut self,
        first_seed: &str,
        second_seed: &str,
        request: &OverlayPairRequest,
        best_effort: bool,
    ) -> Result<Option<[String; 2]>> {
        let first = PreparedFill::new(&request.first)?;
        let second = PreparedFill::new(&request.second)?;
        check_scene_counts(&request.first, &request.second)?;
        let alphas = alpha_values(request.minimum_alpha, request.maximum_alpha);
        let first_table = self.table(first_seed)?;
        let second_table = self.table(second_seed)?;
        let first_source = Self::source_of(first_seed)?;
        let second_source = Self::source_of(second_seed)?;
        let (firsts, seconds) = (first.pairing_candidates(&first_source, &first_table, &alphas, best_effort), second.pairing_candidates(&second_source, &second_table, &alphas, best_effort));
        let rendered = |fills: &[FillCandidate], prepared: &PreparedFill| {
            fills
                .iter()
                .map(|fill| Rendered::new(fill, prepared))
                .collect::<Vec<_>>()
        };
        let (left, right) = (rendered(&firsts, &first), rendered(&seconds, &second));
        let pair = OverlayPair {
            first: firsts,
            second: seconds,
            limits: pair_limits(request.constraints),
            slack: scalar(TOLERANCE),
            chroma_floor: lowered(request.constraints.minimum_chroma),
            balance_salience: request.constraints.balance_rendered_salience,
        };
        let measure = |one: usize, two: usize| {
            measure_overlays(
                request.constraints,
                (&pair.first[one], &pair.second[two]),
                (&left[one], &right[two]),
            )
        };
        let mut fills = pair.first.iter().chain(&pair.second);
        assert!(fills.all(|fill| fill.rank.len() >= 5), "a fill has a full rank");
        Ok(pair
            .solve_overlay_pair(&measure, request.frontier_limit, best_effort)
            .map(|(one, two)| [pair.first[one].emitted.hex(), pair.second[two].emitted.hex()]))
    }
}

const INACTIVE_LINE_NUMBER_SALIENCY: f64 = 0.394;
const HOVER_LINE_NUMBER_SALIENCY: f64 = 0.70;
const PRIMARY_SALIENCY: f64 = 1.0;

struct SaliencyRequest<'a> {
    backgrounds: &'a [String],
    hard_floor: f64,
    preferred_saliency: f64,
    maximum_saliency: Option<f64>,
    contrast_ceiling: Option<&'a str>,
}

fn check(name: &str, range: (f64, f64), value: f64) -> Result<()> {
    if !value.is_finite() || !(range.0..=range.1).contains(&value) {
        return Err(Error::invalid(format!(
            "{name} must be finite and in {}..={}, got {value:?}",
            range.0, range.1
        )));
    }
    Ok(())
}

/// The color with the wanted share of the reference's contrast.
fn fit_relative(
    search: &mut Search,
    seed: &str,
    reference: &str,
    request: SaliencyRequest<'_>,
) -> Result<String> {
    let backgrounds = request.backgrounds;
    let floor = request.hard_floor;
    let preferred = request.preferred_saliency;
    check("saliency hard floor", (1.0, 21.0), floor)?;
    check("preferred saliency", (0.0, 1.0), preferred)?;
    if let Some(maximum) = request.maximum_saliency {
        check("saliency maximum", (preferred, 1.0), maximum)?;
    }
    if backgrounds.is_empty() {
        return Err(Error::invalid(
            "relative saliency requires at least one background".to_owned(),
        ));
    }

    let reference_log = geometric_contrast(reference, backgrounds)?.ln();
    let share = |saliency: f64| (reference_log * saliency).exp().max(floor);
    let contrast = match request.maximum_saliency {
        Some(maximum) => bounded(floor, share(preferred), share(maximum)),
        None => MetricBand::with_preference(scalar(floor), scalar(share(preferred))),
    };
    let ceilings = match request.contrast_ceiling {
        Some(reference) => backgrounds
            .iter()
            .map(|background| {
                contrast_ratio(reference, background).map(|value| scalar(value.max(floor)))
            })
            .collect::<Result<Vec<_>>>()?,
        None => Vec::new(),
    };
    search.fit_color_bounded(
        seed,
        backgrounds,
        &[],
        &PerBackgroundContrast::ceilings(ceilings),
        FitBounds::new(contrast),
    )
}

struct Tone {
    output: String,
    saliency: f64,
}

struct ToneRequest<'a> {
    seed: &'a str,
    reference: &'a str,
    contexts: &'a SyntaxContexts<'a>,
    preference_floor: u32,
    required_floor: u32,
    saliency: f64,
    chroma: (f64, f64),
}

fn fit_tone(search: &mut Search, request: ToneRequest<'_>) -> Result<Tone> {
    let ordinary = request.contexts.ordinary;
    let reference_contrast = geometric_contrast(request.reference, ordinary)?;
    let preferred = (reference_contrast.ln() * request.saliency.clamp(0.0, 1.0))
        .exp()
        .max(milli(request.preference_floor));
    let bounds = FitBounds {
        lower_chroma: scalar(request.chroma.0),
        upper_chroma: scalar(request.chroma.1),
        ..FitBounds::new(MetricBand::with_preference(
            scalar(milli(request.required_floor)),
            scalar(preferred),
        ))
    };
    let output = search.fit_color_preferring(
        request.seed,
        request.contexts.rendered,
        ordinary,
        &[],
        &PerBackgroundContrast::Uniform,
        bounds,
    )?;
    let contrast = geometric_contrast(&output, ordinary)?;
    Ok(Tone {
        saliency: contrast.ln() / reference_contrast.ln().max(1e-12),
        output,
    })
}

fn chroma_of(value: &str) -> Result<f64> {
    Ok(oklab_to_oklch(lab(value)?)[1])
}

/// Measures the syntax character of a palette.
fn measure_profile(palette: &ResolvedPalette) -> Result<SyntaxProfile> {
    let groups = collect_evidence(palette)?;
    let measured = groups
        .iter()
        .map(|group| {
            let [lightness, chroma, hue] = oklab_to_oklch(lab(&group.value)?);
            Ok(Measured {
                lightness: scalar(lightness),
                chroma: scalar(chroma),
                hue: scalar(hue),
            })
        })
        .collect::<Result<Vec<_>>>()?;
    let evidence = order_evidence(&groups, &measured);
    let distances = evidence
        .iter()
        .map(|left| {
            evidence
                .iter()
                .map(|right| {
                    let difference = (float(left.hue) - float(right.hue)).abs();
                    scalar(difference.min(TAU - difference))
                })
                .collect()
        })
        .collect();
    let limits = ProfileLimits {
        chroma_floor: scalar(milli(CHROMA_EVIDENCE) - 1e-12),
        hue_limit: scalar(f64::from(HUE_CLUSTER_DEGREES).to_radians() + 1e-12),
        neutral_maximum: scalar(milli(NEUTRAL_MAXIMUM_CHROMA)),
    };
    Ok(profile_of(evidence, &distances, limits))
}

fn separation(first: &str, second: &str) -> Result<Separation> {
    Ok(Separation {
        normal: scalar(delta_e(first, second)?),
        cvd: scalar(cvd_distance(first, second)?),
    })
}

/// Renders one family from one source, or without a source in the tone of the
/// reference.
fn render_family(
    search: &mut Search,
    profile: &SyntaxProfile,
    contexts: &SyntaxContexts<'_>,
    fixed: [&str; 2],
    source: Option<usize>,
    saliency: f64,
) -> Result<Rendering> {
    let reference = fixed[0];
    let (seed, floor, cap) = match source {
        Some(source) => {
            let evidence = &profile.evidence[source];
            let chroma = float(evidence.chroma);
            let cap = if chroma < milli(CHROMA_EVIDENCE) - 1e-12 {
                chroma.max(0.005)
            } else {
                float(profile.chroma_envelope.ordinary_maximum)
            };
            let preferred = chroma.min(cap);
            let seed = gamut_map_oklch(float(evidence.lightness), preferred, float(evidence.hue));
            (
                seed.hex(),
                preferred * milli(MINIMUM_AUTHORED_CHROMA_RETENTION),
                cap,
            )
        }
        None => (reference.to_owned(), 0.0, chroma_of(reference)?.max(0.005)),
    };
    let tone = fit_tone(
        search,
        ToneRequest {
            seed: &seed,
            reference,
            contexts,
            preference_floor: SYNTAX_SEMANTIC_FLOOR,
            required_floor: SYNTAX_ADAPTIVE_OVERLAY_FLOOR,
            saliency,
            chroma: (floor, cap),
        },
    )?;
    Ok(Rendering {
        fixed: fixed
            .iter()
            .map(|color| separation(&tone.output, color))
            .collect::<Result<Vec<_>>>()?,
        output: tone.output,
        saliency: scalar(tone.saliency),
    })
}

fn family_facts(
    search: &mut Search,
    hierarchy: &MergePlan,
    profile: &SyntaxProfile,
    contexts: &SyntaxContexts<'_>,
    fixed: [&str; 2],
) -> Result<FamilyFacts> {
    let subdued = geometric_contrast(fixed[1], contexts.ordinary)?.ln()
        / geometric_contrast(fixed[0], contexts.ordinary)?
            .ln()
            .max(1e-12);
    let mut renderings: Vec<Vec<Option<Rendering>>> = Vec::new();
    for family in &hierarchy.families {
        let mut row = Vec::new();
        for slot in 0..=profile.evidence.len() {
            let saliency = match family.parent {
                None => Some(milli(u32::from(family.fallback_saliency))),
                Some(parent) => renderings[parent][slot].as_ref().map(|rendering| {
                    (float(rendering.saliency) + milli(u32::from(family.parent_saliency_delta)))
                        .clamp(subdued + 0.06, 0.96)
                }),
            };
            let source = slot.checked_sub(1);
            row.push(match saliency {
                Some(saliency) => Some(render_family(
                    search, profile, contexts, fixed, source, saliency,
                )?),
                None => None,
            });
        }
        renderings.push(row);
    }
    let outputs = renderings.iter().flatten().collect::<Vec<_>>();
    let apart = Separation {
        normal: scalar(f64::INFINITY),
        cvd: scalar(f64::INFINITY),
    };
    let separations = outputs
        .iter()
        .map(|first| {
            outputs
                .iter()
                .map(|second| match (first, second) {
                    (Some(first), Some(second)) => separation(&first.output, &second.output),
                    _ => Ok(apart),
                })
                .collect::<Result<Vec<_>>>()
        })
        .collect::<Result<Vec<_>>>()?;
    Ok(FamilyFacts {
        separations,
        renderings,
        saliency_floor: scalar(subdued + milli(MINIMUM_SEMANTIC_SALIENCY_GAP) - 1e-12),
        separation_floor: SeparationFloor {
            normal: scalar(milli(ORDINARY_NORMAL_SEPARATION) - 1e-12),
            cvd: scalar(milli(ORDINARY_CVD_SEPARATION) - 1e-12),
        },
    })
}



struct BorderSurfaces<'a> {
    canvas: &'a str,
    panel: &'a str,
    elevated: &'a str,
    chrome: &'a str,
    inactive_tab: &'a str,
}

struct Score {
    boundary_deficit: f64,
    ceiling_excess: f64,
    target_distance: f64,
}

struct Candidate {
    color: String,
    luminance: f64,
    passive: Score,
    normal: Score,
}

fn contrast(left: f64, right: f64) -> f64 {
    (left.max(right) + 0.05) / (left.min(right) + 0.05)
}

fn score(luminance: f64, backgrounds: &[f64], boundary: f64, band: MetricBand) -> Score {
    let least = float(band.minimum);
    let preferred = band.preferred.map_or(least, float).ln();
    let maximum = band.maximum.map_or(f64::INFINITY, float);
    let mut excess = 0.0_f64;
    let mut preference = 0.0;
    for background in backgrounds {
        let ratio = contrast(luminance, *background);
        excess = excess.max((ratio / maximum).ln().max(0.0));
        preference += (ratio.ln() - preferred).abs();
    }
    Score {
        boundary_deficit: (least / contrast(luminance, boundary)).ln().max(0.0),
        ceiling_excess: excess,
        target_distance: preference / backgrounds.len() as f64,
    }
}

/// The passive and the normal border of a window's surfaces.
fn derive(
    surfaces: &BorderSurfaces<'_>,
    foreground: &str,
    policy: &StructurePolicy,
) -> Result<(String, String)> {
    let canvas = relative_luminance(surfaces.canvas)?;
    let panel = relative_luminance(surfaces.panel)?;
    let elevated = relative_luminance(surfaces.elevated)?;
    let chrome = relative_luminance(surfaces.chrome)?;
    let inactive_tab = relative_luminance(surfaces.inactive_tab)?;
    let passive_backgrounds = [canvas, panel, elevated];
    let normal_backgrounds = [canvas, panel, chrome, inactive_tab];
    let all_backgrounds = [canvas, panel, elevated, chrome, inactive_tab];
    let lighter = relative_luminance(foreground)? > canvas;
    let limit = edge(&all_backgrounds.map(scalar).to_vec(), lighter);

    let mut candidates = Vec::new();
    for step in 0..=256 {
        let color = tone(surfaces.canvas, f64::from(step) / 256.0, 1.0)?;
        let luminance = relative_luminance(&color)?;
        if crosses_surface(scalar(luminance), limit, lighter) {
            continue;
        }
        candidates.push(Candidate {
            passive: score(luminance, &passive_backgrounds, elevated, policy.passive),
            normal: score(luminance, &normal_backgrounds, panel, policy.normal),
            color,
            luminance,
        });
    }
    let luminances = candidates
        .iter()
        .map(|candidate| scalar(candidate.luminance))
        .collect();
    let pairs = pairings(&luminances, lighter);
    let ranks = pairs
        .iter()
        .map(|(passive, normal)| {
            let (passive, normal) = (&candidates[*passive], &candidates[*normal]);
            let hierarchy_deficit = all_backgrounds
                .iter()
                .map(|background| {
                    let step = contrast(normal.luminance, *background)
                        - contrast(passive.luminance, *background);
                    (policy.minimum_hierarchy_step - step).max(0.0)
                })
                .fold(0.0_f64, f64::max);
            vec![
                scalar(
                    passive.passive.boundary_deficit
                        + normal.normal.boundary_deficit
                        + hierarchy_deficit,
                ),
                scalar(
                    passive
                        .passive
                        .ceiling_excess
                        .max(normal.normal.ceiling_excess),
                ),
                scalar(passive.passive.target_distance + normal.normal.target_distance),
            ]
        })
        .collect();
    match lowest(&ranks) {
        Some(index) => {
            let (passive, normal) = pairs[index];
            Ok((
                candidates[passive].color.clone(),
                candidates[normal].color.clone(),
            ))
        }
        None => unreachable!("the endpoint on the side of the foreground is a candidate"),
    }
}

/// A decimal constant of the library, which counts thousandths.
fn milli(thousandths: u32) -> f64 {
    f64::from(thousandths) / 1000.0
}

struct StructurePolicy {
    passive: MetricBand,
    normal: MetricBand,
    minimum_hierarchy_step: f64,
}

fn seeds(values: &[&str]) -> Vec<String> {
    values.iter().map(|value| (*value).to_owned()).collect()
}

fn constraints(foreground: f64, contrast: f64, normal: f64, cvd: f64) -> PairConstraints {
    PairConstraints::new(
        scalar(foreground),
        scalar(contrast),
        scalar(normal),
        scalar(cvd),
    )
}

fn overlay(backgrounds: &[String], contrast: MetricBand, delta_e: MetricBand) -> OverlayFitRequest {
    OverlayFitRequest::new(backgrounds.to_vec(), contrast, delta_e)
}

fn state(backgrounds: &[String], contrast: MetricBand, delta_e: MetricBand) -> StateFitRequest {
    StateFitRequest::new(backgrounds.to_vec(), contrast, delta_e)
}

fn preferring(minimum: f64, preferred: f64) -> FitBounds {
    FitBounds::new(MetricBand::with_preference(
        scalar(minimum),
        scalar(preferred),
    ))
}

fn fit_bounds(
    search: &mut Search,
    seed: &str,
    backgrounds: &[String],
    bounds: FitBounds,
) -> Result<String> {
    search.fit_color_bounded(
        seed,
        backgrounds,
        &[],
        &PerBackgroundContrast::Uniform,
        bounds,
    )
}

fn greedy_order(values: &[String]) -> Result<Vec<String>> {
    let values = values.to_vec();
    for value in &values {
        parse_hex(value)?;
    }
    let distance =
        |first: usize, second: usize| match cvd_distance(&values[first], &values[second]) {
            Ok(distance) => scalar(distance),
            Err(_) => scalar(0.0),
        };
    cvd_greedy_order(&values, &distance)
}

fn assert_invalid<T>(result: Result<T>) -> String {
    let error = result.err().unwrap();
    assert_eq!(error.kind(), ErrorKind::InvalidInput);
    error.message()
}

#[test]
fn reference_vectors() {
    assert_eq!(lab("#000000").unwrap(), [0.0, 0.0, 0.0]);
    assert!((lab("#ffffff").unwrap()[0] - 1.0).abs() < 1e-7);
    assert_eq!(oklab_to_rgb24(lab("#449dab").unwrap()).hex(), "#449dab");
    assert!((contrast_ratio("#000000", "#ffffff").unwrap() - 21.0).abs() < 1e-12);
    assert_eq!(
        gpui_blend("#000000", "#ffffff80").unwrap().opaque_hex(),
        "#808080"
    );
}

#[test]
fn relative_target_uses_the_documented_log_contrast_metric() {
    let mut search = Search::default();
    let backgrounds = seeds(&["#121212"]);
    let fit = fit_relative(
        &mut search,
        "#aaaaaa",
        "#dddddd",
        SaliencyRequest {
            backgrounds: &backgrounds,
            hard_floor: 1.52,
            preferred_saliency: INACTIVE_LINE_NUMBER_SALIENCY,
            maximum_saliency: None,
            contrast_ceiling: None,
        },
    )
    .unwrap();
    let actual = geometric_contrast(&fit, &backgrounds).unwrap().ln()
        / geometric_contrast("#dddddd", &backgrounds).unwrap().ln();
    assert!((actual - INACTIVE_LINE_NUMBER_SALIENCY).abs() < 0.03);
}

#[test]
fn opaque_color_fit_rejects_rgba_inputs() {
    let mut search = Search::default();
    assert_invalid(search.fit_color("#ffffff00", &seeds(&["#000000"]), 21.0));
    assert_invalid(search.fit_color("#ffffff", &seeds(&["#000000ff"]), 21.0));
}

#[test]
fn empty_cvd_order_is_empty() {
    assert!(greedy_order(&[]).unwrap().is_empty());
}

#[test]
fn fits_require_a_background() {
    let backgrounds = Vec::new();
    let request = || overlay(&backgrounds, floor(1.1), floor(0.01));
    let mut search = Search::default();

    assert!(search.fit_overlay("#ffffff", &request()).is_err());
    assert!(search
        .fit_state("#ffffff", &state(&backgrounds, floor(1.1), floor(0.01)))
        .is_err());
    assert!(search
        .fit_overlay_pair(
            "#ffffff",
            "#000000",
            &OverlayPairRequest::new(request(), request(), constraints(1.1, 1.01, 0.01, 0.01)),
        )
        .is_err());
    assert!(search
        .fit_pair(
            "#ffffff",
            "#000000",
            &backgrounds,
            constraints(1.1, 1.01, 0.01, 0.01),
        )
        .is_err());
}

#[test]
fn invalid_numeric_requests_are_rejected_before_caching() {
    let backgrounds = seeds(&["#101010"]);
    let mut search = Search::default();

    assert_invalid(search.fit_color("#ffffff", &backgrounds, f64::NAN));
    assert!(search.colors.is_empty());

    assert_invalid(fit_bounds(
        &mut search,
        "#ffffff",
        &backgrounds,
        FitBounds {
            lower_lightness: scalar(0.8),
            upper_lightness: scalar(0.2),
            ..FitBounds::new(floor(4.5))
        },
    ));
    assert!(search.colors.is_empty());

    assert_invalid(search.fit_pair(
        "#ffffff",
        "#000000",
        &backgrounds,
        constraints(4.5, 1.0, f64::NAN, 0.0),
    ));

    let readable = assert_invalid(search.fit_pair_readable(
        ("#ffffff", &backgrounds),
        ("#000000", &backgrounds),
        constraints(4.5, 1.0, 0.0, 0.0),
        &[("#ffffff".into(), f64::NAN)],
    ));
    assert!(readable.contains("readable_foregrounds[0]"));

    assert_invalid(search.fit_overlay(
        "#ffffff",
        &overlay(&backgrounds, floor(1.2), floor(f64::NEG_INFINITY)),
    ));

    assert_invalid(search.try_fit_overlay_preferred(
        "#ffffff",
        &overlay(&backgrounds, floor(1.2), floor(0.01)),
        0,
        0,
    ));

    let fill = || overlay(&backgrounds, floor(1.1), floor(0.01));
    assert_invalid(search.fit_overlay_pair(
        "#ffffff",
        "#000000",
        &OverlayPairRequest {
            frontier_limit: 1,
            ..OverlayPairRequest::new(fill(), fill(), constraints(1.0, 1.0, 0.0, 0.0))
        },
    ));

    assert_invalid(search.fit_distinct_colors(
        &seeds(&["#ffffff"]),
        &backgrounds,
        4.5,
        f64::NAN,
        0.0,
    ));
}

#[test]
fn impossible_pair_request_maximizes_the_requested_separation() {
    let backgrounds = seeds(&["#808080"]);
    let wanted = constraints(1.0, 1.0, 2.0, 0.0);
    let mut search = Search::default();
    let result = search
        .fit_pair("#3a7bd5", "#d53a7b", &backgrounds, wanted)
        .unwrap();
    assert!(
        delta_e(&result[0], &result[1]).unwrap()
            >= delta_e("#000000", "#ffffff").unwrap() - 1e-12
    );
}

#[test]
fn pair_searches_repeat_their_answer() {
    let backgrounds = seeds(&["#101010"]);
    let wanted = constraints(4.5, 1.05, 0.075, 0.040);
    let first = Search::default()
        .fit_pair("#4fa66b", "#d75b68", &backgrounds, wanted)
        .unwrap();
    let second = Search::default()
        .fit_pair("#4fa66b", "#d75b68", &backgrounds, wanted)
        .unwrap();
    assert_eq!(first, second);
    assert!(delta_e(&first[0], &first[1]).unwrap() >= 0.075 - 1e-9);
    assert!(cvd_distance(&first[0], &first[1]).unwrap() >= 0.040 - 1e-9);
    assert!(contrast_ratio(&first[0], &first[1]).unwrap() >= 1.05 - 1e-9);
    for color in &first {
        assert!(contrast_ratio(color, &backgrounds[0]).unwrap() >= 4.5 - 1e-9);
    }
}

#[test]
fn zero_work_distinct_color_search_validates_backgrounds() {
    let mut search = Search::default();
    assert_invalid(search.fit_distinct_colors(&[], &seeds(&["invalid"]), 4.5, 0.035, 0.020));
}

#[test]
fn distinct_color_fit_returns_the_best_available_set() {
    let mut search = Search::default();
    let colors = search
        .fit_distinct_colors(
            &seeds(&["#ffffff", "#ffffff"]),
            &seeds(&["#000000"]),
            20.0,
            0.035,
            0.020,
        )
        .unwrap();
    assert_eq!(colors.len(), 2);
    assert_ne!(colors[0], colors[1]);
}

#[test]
fn cvd_order_rejects_unbounded_quadratic_input() {
    assert_invalid(greedy_order(&vec!["#000000".to_owned(); 1025]));
}

#[test]
fn cvd_order_reports_invalid_colors() {
    assert!(greedy_order(&seeds(&["invalid"])).is_err());
}

#[test]
fn cvd_order_takes_the_farthest_color_next() {
    let ordered = greedy_order(&seeds(&["#000000", "#101010", "#ffffff", "#808080"])).unwrap();
    assert_eq!(
        ordered,
        seeds(&["#000000", "#ffffff", "#808080", "#101010"])
    );
}

#[test]
fn chroma_bounds_are_enforced_and_part_of_the_query_cache_key() {
    let mut search = Search::default();
    let backgrounds = seeds(&["#101010"]);
    let mut within = |upper: f64| {
        fit_bounds(
            &mut search,
            "#ff0000",
            &backgrounds,
            FitBounds {
                upper_chroma: scalar(upper),
                ..FitBounds::new(floor(3.0))
            },
        )
        .unwrap()
    };
    let restrained = within(0.05);
    let vivid = within(0.20);

    assert!(oklab_to_oklch(lab(&restrained).unwrap())[1] <= 0.05 + 1e-12);
    assert!(oklab_to_oklch(lab(&vivid).unwrap())[1] <= 0.20 + 1e-12);
    assert_ne!(restrained, vivid);
    assert_eq!(search.colors.len(), 2);
}

#[test]
fn preferred_contrast_is_ranked_and_part_of_the_query_cache_key() {
    let mut search = Search::default();
    let backgrounds = seeds(&["#121212"]);
    let subtle = fit_bounds(&mut search, "#cccccc", &backgrounds, preferring(1.52, 2.0)).unwrap();
    let focal = fit_bounds(&mut search, "#cccccc", &backgrounds, preferring(1.52, 8.0)).unwrap();

    assert!(
        contrast_ratio(&subtle, &backgrounds[0]).unwrap()
            < contrast_ratio(&focal, &backgrounds[0]).unwrap()
    );
    assert_eq!(search.colors.len(), 2);
}

#[test]
fn required_and_preference_backgrounds_are_independent_and_cached() {
    let mut search = Search::default();
    let required = seeds(&["#777777"]);
    let dark_preference = seeds(&["#101010"]);
    let light_preference = seeds(&["#f0f0f0"]);
    let mut fit = |preference: &[String]| {
        search
            .fit_color_preferring(
                "#cccccc",
                &required,
                preference,
                &[],
                &PerBackgroundContrast::Uniform,
                preferring(1.05, 8.0),
            )
            .unwrap()
    };
    let dark = fit(&dark_preference);
    let light = fit(&light_preference);

    assert_ne!(dark, light);
    assert!(contrast_ratio(&dark, &dark_preference[0]).unwrap() >= 7.5);
    assert!(contrast_ratio(&light, &light_preference[0]).unwrap() >= 7.5);
    assert_eq!(search.colors.len(), 2);
}

#[test]
fn overlay_pair_is_bounded_deterministic_and_valid_after_composition() {
    let backgrounds = seeds(&["#16181d", "#242730"]);
    let request = || {
        let fill = || overlay(&backgrounds, floor(1.10), floor(0.025));
        OverlayPairRequest {
            maximum_alpha: 198,
            frontier_limit: 512,
            ..OverlayPairRequest::new(
                fill(),
                fill(),
                PairConstraints {
                    prefer_background: true,
                    ..constraints(1.10, 1.01, 0.030, 0.020)
                },
            )
        }
    };
    let mut search = Search::default();
    let first = search
        .fit_overlay_pair("#4fa66b", "#d75b68", &request())
        .unwrap();
    let second = search
        .fit_overlay_pair("#4fa66b", "#d75b68", &request())
        .unwrap();

    assert_eq!(first, second);
    assert!(first
        .iter()
        .all(|value| parse_hex(value).unwrap().alpha() <= 198));
    for background in &backgrounds {
        let left = render_layers(background, &[&first[0]]).unwrap();
        let right = render_layers(background, &[&first[1]]).unwrap();
        assert!(contrast_ratio(&left, background).unwrap() >= 1.10 - 1e-9);
        assert!(contrast_ratio(&right, background).unwrap() >= 1.10 - 1e-9);
        assert!(delta_e(&left, &right).unwrap() >= 0.030 - 1e-9);
        assert!(cvd_distance(&left, &right).unwrap() >= 0.020 - 1e-9);
    }
}

#[test]
fn overlay_pair_fallback_prioritizes_pair_separation_over_individual_ceilings() {
    let backgrounds = seeds(&["#202020"]);
    let fill = || {
        overlay(
            &backgrounds,
            bounded(1.01, 1.05, 1.10),
            bounded(0.005, 0.020, 0.030),
        )
    };
    let output = Search::default()
        .fit_overlay_pair(
            "#d08080",
            "#80a0d0",
            &OverlayPairRequest::new(fill(), fill(), constraints(1.0, 1.0, 0.18, 0.0)),
        )
        .unwrap();
    let rendered: [String; 2] =
        std::array::from_fn(|index| render_layers(&backgrounds[0], &[&output[index]]).unwrap());

    assert!(rendered
        .iter()
        .all(|color| contrast_ratio(color, &backgrounds[0]).unwrap() >= 1.01 - 1e-9));
    let separation = delta_e(&rendered[0], &rendered[1]).unwrap();
    assert!(
        separation >= 0.18 - 1e-9,
        "pair separation {separation:.4} for {output:?} rendered as {rendered:?}"
    );
    assert!(
        rendered.iter().any(|color| {
            contrast_ratio(color, &backgrounds[0]).unwrap() > 1.10 + 1e-9
                || delta_e(color, &backgrounds[0]).unwrap() > 0.030 + 1e-9
        }),
        "hard pair separation should be allowed to exceed an aesthetic ceiling"
    );
}

#[test]
fn color_contrast_ceiling_is_enforced_and_cached_separately() {
    let backgrounds = seeds(&["#121212"]);
    let mut search = Search::default();
    let mut fit = |minimum, preferred, maximum| {
        fit_bounds(
            &mut search,
            "#ffffff",
            &backgrounds,
            FitBounds::new(bounded(minimum, preferred, maximum)),
        )
        .unwrap()
    };
    let tight = fit(1.50, 2.0, 2.20);
    let relaxed = fit(1.50, 3.0, 3.20);

    let tight_contrast = contrast_ratio(&tight, &backgrounds[0]).unwrap();
    let relaxed_contrast = contrast_ratio(&relaxed, &backgrounds[0]).unwrap();
    assert!((1.50 - 1e-9..=2.20 + 1e-9).contains(&tight_contrast));
    assert!((1.50 - 1e-9..=3.20 + 1e-9).contains(&relaxed_contrast));
    assert!(tight_contrast < relaxed_contrast);
    assert_eq!(search.colors.len(), 2);
}

#[test]
fn per_background_contrast_ceilings_are_enforced_and_cached_separately() {
    let backgrounds = seeds(&["#121212", "#303030"]);
    let mut search = Search::default();
    let mut fit = |ceilings: &[f64]| {
        search.fit_color_bounded(
            "#ffffff",
            &backgrounds,
            &[],
            &PerBackgroundContrast::ceilings(ceilings.iter().copied().map(scalar).collect()),
            preferring(1.10, 2.0),
        )
    };
    let first_ceilings = [2.40, 1.80];
    let first = fit(&first_ceilings).unwrap();
    let reversed_ceilings = [1.80, 2.40];
    let reversed = fit(&reversed_ceilings).unwrap();
    assert_invalid(fit(&[2.20]));

    for (output, ceilings) in [(&first, first_ceilings), (&reversed, reversed_ceilings)] {
        for (background, ceiling) in backgrounds.iter().zip(ceilings) {
            let contrast = contrast_ratio(output, background).unwrap();
            assert!((1.10 - 1e-9..=ceiling + 1e-9).contains(&contrast));
        }
    }
    assert_ne!(first, reversed);
    assert_eq!(search.colors.len(), 2);
}

#[test]
fn per_background_contrast_floors_are_enforced_and_cached_separately() {
    let backgrounds = seeds(&["#121212", "#303030"]);
    let mut search = Search::default();
    let mut fit = |floors: &[f64]| {
        search.fit_color_bounded(
            "#777777",
            &backgrounds,
            &[],
            &PerBackgroundContrast::floors(floors.iter().copied().map(scalar).collect()),
            FitBounds::new(floor(1.10)),
        )
    };
    let first_floors = [4.00, 2.50];
    let first = fit(&first_floors).unwrap();
    let second_floors = [5.00, 3.50];
    let second = fit(&second_floors).unwrap();
    assert_invalid(fit(&[2.0]));

    for (output, floors) in [(&first, first_floors), (&second, second_floors)] {
        for (background, floor) in backgrounds.iter().zip(floors) {
            assert!(contrast_ratio(output, background).unwrap() >= floor - 1e-9);
        }
    }
    assert_eq!(search.colors.len(), 2);
}

#[test]
fn state_minimum_chroma_is_enforced_and_cached_separately() {
    let backgrounds = seeds(&["#f5f5f5"]);
    let mut search = Search::default();
    let band = || {
        state(
            &backgrounds,
            bounded(1.20, 1.40, 1.65),
            bounded(0.030, 0.080, 0.250),
        )
    };
    let neutral_allowed = search.fit_state("#3264eb", &band()).unwrap();
    let tinted = search
        .fit_state(
            "#3264eb",
            &StateFitRequest {
                minimum_chroma: scalar(0.040),
                ..band()
            },
        )
        .unwrap();

    assert!(ColorMetrics::from_hex(&tinted).unwrap().chroma() >= 0.040 - 1e-9);
    assert_eq!(search.states.len(), 2);
    assert_ne!(neutral_allowed, tinted);
}

#[test]
fn rendered_overlay_respects_contrast_and_distance_bands() {
    let backgrounds = seeds(&["#181b20", "#23272e"]);
    let output = Search::default()
        .fit_overlay(
            "#8aa0b8",
            &overlay(
                &backgrounds,
                bounded(1.10, 1.18, 1.35),
                bounded(0.025, 0.050, 0.100),
            ),
        )
        .unwrap();

    for background in &backgrounds {
        let rendered = render_layers(background, &[&output]).unwrap();
        let contrast = contrast_ratio(&rendered, background).unwrap();
        let distance = delta_e(&rendered, background).unwrap();
        assert!((1.10 - 1e-9..=1.35 + 1e-9).contains(&contrast));
        assert!((0.025 - 1e-9..=0.100 + 1e-9).contains(&distance));
    }
}

#[test]
fn opaque_state_respects_bands_and_rejects_inverted_requests() {
    let backgrounds = seeds(&["#16191d"]);
    let mut search = Search::default();
    let output = search
        .fit_state(
            "#8ea4bc",
            &state(
                &backgrounds,
                bounded(1.12, 1.22, 1.40),
                bounded(0.030, 0.060, 0.120),
            ),
        )
        .unwrap();
    let contrast = contrast_ratio(&output, &backgrounds[0]).unwrap();
    let distance = delta_e(&output, &backgrounds[0]).unwrap();
    assert!((1.12 - 1e-9..=1.40 + 1e-9).contains(&contrast));
    assert!((0.030 - 1e-9..=0.120 + 1e-9).contains(&distance));

    assert_invalid(search.fit_state(
        "#8ea4bc",
        &state(&backgrounds, bounded(1.30, 1.20, 1.40), floor(0.030)),
    ));
}

#[test]
fn best_effort_preserves_hard_contrast_before_aesthetic_ceiling() {
    let backgrounds = seeds(&["#000000", "#777777"]);
    let hard_deficit = |color: &str| {
        backgrounds
            .iter()
            .map(|background| shortfall(contrast_ratio(color, background).unwrap(), 7.0))
            .sum::<f64>()
    };

    let mut color_search = Search::default();
    let color_floor_only = color_search
        .fit_color("#ffffff", &backgrounds, 7.0)
        .unwrap();
    let color_bounded = fit_bounds(
        &mut color_search,
        "#ffffff",
        &backgrounds,
        FitBounds::new(bounded(7.0, 7.5, 8.0)),
    )
    .unwrap();
    assert!(hard_deficit(&color_bounded) <= hard_deficit(&color_floor_only) + 1e-12);

    let mut state_search = Search::default();
    let state_floor_only = state_search
        .fit_state("#ffffff", &state(&backgrounds, floor(7.0), floor(0.0)))
        .unwrap();
    let state_bounded = state_search
        .fit_state(
            "#ffffff",
            &state(&backgrounds, bounded(7.0, 7.5, 8.0), floor(0.0)),
        )
        .unwrap();
    assert!(hard_deficit(&state_bounded) <= hard_deficit(&state_floor_only) + 1e-12);

    let overlay_deficit = |overlay: &str| {
        backgrounds
            .iter()
            .map(|background| {
                let rendered = render_layers(background, &[overlay]).unwrap();
                shortfall(contrast_ratio(&rendered, background).unwrap(), 7.0)
            })
            .sum::<f64>()
    };
    let mut overlay_search = Search::default();
    let overlay_floor_only = overlay_search
        .fit_overlay_alpha_range(
            "#ffffff",
            &overlay(&backgrounds, floor(7.0), floor(0.0)),
            u8::MAX,
            u8::MAX,
        )
        .unwrap();
    let overlay_bounded = overlay_search
        .fit_overlay_alpha_range(
            "#ffffff",
            &overlay(&backgrounds, bounded(7.0, 7.5, 8.0), floor(0.0)),
            u8::MAX,
            u8::MAX,
        )
        .unwrap();
    assert!(overlay_deficit(&overlay_bounded) <= overlay_deficit(&overlay_floor_only) + 1e-12);
}

#[test]
fn overlays_prefer_lower_alphas() {
    let backgrounds = seeds(&["#202020"]);
    let mut search = Search::default();
    let low = search
        .fit_overlay_preferred(
            "#ffffff",
            &overlay(&backgrounds, floor(1.2), floor(0.01)),
            166,
            250,
        )
        .unwrap();
    assert!(parse_hex(&low).unwrap().alpha() <= 166);
    let high = search
        .fit_overlay_preferred(
            "#ffffff",
            &overlay(&backgrounds, floor(12.0), floor(0.01)),
            166,
            250,
        )
        .unwrap();
    assert!(parse_hex(&high).unwrap().alpha() > 166);
    assert_eq!(
        search
            .try_fit_overlay_preferred(
                "#ffffff",
                &overlay(&backgrounds, floor(21.0), floor(0.01)),
                166,
                250,
            )
            .unwrap(),
        None
    );
}

#[test]
fn a_color_that_passes_is_kept() {
    let mut search = Search::default();
    let backgrounds = seeds(&["#000000"]);
    assert_eq!(
        search.fit_color("#ABCDEF", &backgrounds, 4.5).unwrap(),
        "#ABCDEF"
    );
    let darker = search.fit_color("#333333", &backgrounds, 4.5).unwrap();
    assert!(contrast_ratio(&darker, "#000000").unwrap() >= 4.5 - 1e-9);
}

#[test]
fn avoided_colors_stay_apart() {
    let mut search = Search::default();
    let backgrounds = seeds(&["#000000"]);
    let fitted = search
        .fit_color_avoiding("#7fbbb3", &backgrounds, 4.5, &seeds(&["#7fbbb3"]))
        .unwrap();
    assert!(delta_e(&fitted, "#7fbbb3").unwrap() >= 0.10 - 1e-9);
    assert!((lightness(&fitted).unwrap() - lightness("#7fbbb3").unwrap()).abs() >= 0.05 - 1e-9);
}

fn evidence_palette(samples: &[(&str, f64, f64, Provenance)]) -> ResolvedPalette {
    let mut colors = TextMap::new();
    let mut provenance = TextMap::new();
    for key in EVIDENCE_KEYS {
        colors.insert(key.to_owned(), "#777777".to_owned());
        provenance.insert(key.to_owned(), Provenance::Derived);
    }
    colors.insert("background".into(), "#111111".into());
    provenance.insert("background".into(), Provenance::Direct);
    for (key, chroma, hue, source) in samples {
        colors.insert(
            (*key).to_owned(),
            gamut_map_oklch(0.65, *chroma, *hue).hex(),
        );
        provenance.insert((*key).to_owned(), *source);
    }
    ResolvedPalette {
        mode: "dark".into(),
        colors,
        provenance,
    }
}

fn measure(samples: &[(&str, f64, f64, Provenance)]) -> SyntaxProfile {
    measure_profile(&evidence_palette(samples)).unwrap()
}

#[test]
fn equivalent_hex_spellings_produce_one_evidence_color() {
    let mut palette = evidence_palette(&[
        ("red", 0.12, 0.2, Provenance::Direct),
        ("blue", 0.12, 2.5, Provenance::Direct),
    ]);
    palette.colors.insert("red".into(), "#FF0000".into());
    palette.colors.insert("blue".into(), "#ff0000".into());

    let profile = measure_profile(&palette).unwrap();

    assert_eq!(profile.evidence.len(), 1);
    assert_eq!(profile.evidence[0].value, "#ff0000");
    assert_eq!(profile.evidence[0].keys, ["blue", "red"]);
}

#[test]
fn duplicate_rgb_produces_one_evidence_color() {
    let mut duplicate = evidence_palette(&[
        ("accent", 0.12, 0.2, Provenance::Direct),
        ("blue", 0.12, 2.5, Provenance::Direct),
    ]);
    let accent = duplicate.colors.get("accent").unwrap().clone();
    duplicate.colors.insert("blue".into(), accent);

    assert_eq!(measure_profile(&duplicate).unwrap().evidence.len(), 1);
}

#[test]
fn derived_colors_are_not_profile_evidence() {
    let profile = measure(&[
        ("red", 0.18, 0.2, Provenance::Derived),
        ("blue", 0.18, 3.5, Provenance::Derived),
    ]);

    assert!(profile.evidence.is_empty());
    assert!(profile.clusters.is_empty());
}

#[test]
fn evidence_threshold_has_no_large_envelope_jump() {
    let threshold = milli(CHROMA_EVIDENCE);
    let below = measure(&[
        ("red", 0.10, 0.2, Provenance::Direct),
        ("blue", threshold - 0.0002, 3.5, Provenance::Direct),
    ]);
    let above = measure(&[
        ("red", 0.10, 0.2, Provenance::Direct),
        ("blue", threshold + 0.0002, 3.5, Provenance::Direct),
    ]);

    assert!(
        (float(above.chroma_envelope.ordinary_maximum)
            - float(below.chroma_envelope.ordinary_maximum))
        .abs()
            < 0.01
    );
}

#[test]
fn every_perceptible_authored_color_contributes_a_hue_cluster() {
    let neutral = measure(&[]);
    assert!(neutral.clusters.is_empty());

    let weak = measure(&[(
        "accent",
        milli(CHROMA_EVIDENCE) + 0.005,
        0.2,
        Provenance::Direct,
    )]);
    assert!(!weak.evidence.is_empty());
    assert_eq!(weak.clusters.len(), 1);

    let accent = measure(&[("accent", 0.14, 0.2, Provenance::Direct)]);
    assert_eq!(accent.clusters.len(), 1);
}

#[test]
fn hue_clustering_has_no_three_cluster_gate() {
    let native = measure(&[
        ("red", 0.12, 0.2, Provenance::Direct),
        ("green", 0.12, 2.1, Provenance::Direct),
        ("blue", 0.12, 4.0, Provenance::Direct),
    ]);

    assert_eq!(native.clusters.len(), 3);

    let dominant_cluster = measure(&[
        ("red", 0.18, 0.1, Provenance::Direct),
        ("orange", 0.18, 0.2, Provenance::Direct),
        ("green", 0.03, 2.1, Provenance::Direct),
        ("blue", 0.03, 4.0, Provenance::Direct),
    ]);

    assert_eq!(dominant_cluster.clusters.len(), 3);

    let two_clusters = measure(&[
        ("red", 0.12, 0.0, Provenance::Direct),
        ("orange", 0.12, 34.0 * PI / 180.0, Provenance::Direct),
        ("green", 0.12, PI, Provenance::Direct),
        ("cyan", 0.12, 214.0 * PI / 180.0, Provenance::Direct),
    ]);

    assert_eq!(two_clusters.clusters.len(), 2);
}

#[test]
fn authored_neutral_colors_are_tone_evidence_not_hue_clusters() {
    let profile = measure(&[("accent", 0.0, 0.0, Provenance::Direct)]);

    assert_eq!(profile.evidence.len(), 1);
    assert!(profile.clusters.is_empty());
}

#[test]
fn hue_families_use_complete_link_clustering() {
    let profile = measure(&[
        ("red", 0.10, 0.0, Provenance::Direct),
        ("orange", 0.10, 30.0 * PI / 180.0, Provenance::Direct),
        ("yellow", 0.10, 60.0 * PI / 180.0, Provenance::Direct),
    ]);

    assert_eq!(profile.clusters.len(), 2);
    assert!(profile.clusters.iter().all(|cluster| {
        cluster.members.iter().all(|left| {
            cluster.members.iter().all(|right| {
                let difference =
                    (float(profile.evidence[*left].hue) - float(profile.evidence[*right].hue)).abs();
                difference.min(TAU - difference) <= 35.0 * PI / 180.0 + 1e-12
            })
        })
    }));
}

fn five_source_profile() -> SyntaxProfile {
    let samples = EVIDENCE_KEYS[..5]
        .iter()
        .enumerate()
        .map(|(index, key)| (*key, 0.10, index as f64, Provenance::Direct))
        .collect::<Vec<_>>();
    measure(&samples)
}

#[test]
fn semantic_score_preserves_roots_before_refinements() {
    let hierarchy = MergePlan::hierarchy(3);
    let families = hierarchy.families.len();
    let profile = measure(&[]);
    let apart = Separation {
        normal: scalar(1.0),
        cvd: scalar(1.0),
    };
    let facts = FamilyFacts {
        renderings: (0..families).map(|_| vec![None]).collect(),
        separations: vec![vec![apart; families]; families],
        saliency_floor: scalar(0.5),
        separation_floor: SeparationFloor {
            normal: scalar(0.025),
            cvd: scalar(0.020),
        },
    };
    let forest = semantic_forest(&hierarchy, &profile, &facts);
    let score = |families: &[usize]| {
        let choices = families
            .iter()
            .map(|family| Choice {
                family: *family,
                source: None,
            })
            .collect();
        forest.semantic_score(&choices)
    };
    assert!(score(&[0, 1, 2]).is_above(score(&[0, 1, 3, 4, 5])));
    assert!(score(&[0, 1, 3]).is_above(score(&[0, 1])));
    assert!(!score(&[0, 1]).is_above(score(&[0, 1])));
}

#[test]
fn root_sources_never_truncates_authored_candidates() {
    let profile = five_source_profile();
    let sources = root_sources(&profile, SemanticRole::Callable);
    assert_eq!(sources.len(), 6);
    assert_eq!(
        sources.into_iter().collect::<BTreeSet<_>>(),
        (0..5).map(Some).chain(std::iter::once(None)).collect()
    );
}

#[test]
fn branch_and_bound_matches_exhaustive_search() {
    let profile = five_source_profile();
    let contexts = seeds(&["#111111"]);
    let contexts = SyntaxContexts {
        ordinary: &contexts,
        rendered: &contexts,
    };
    let hierarchy = MergePlan::hierarchy(3);
    let mut search = Search::default();
    let facts = family_facts(
        &mut search,
        &hierarchy,
        &profile,
        &contexts,
        ["#eeeeee", "#777777"],
    )
    .unwrap();
    let pruned = select_semantic_plan(&hierarchy, &profile, &facts, true);
    let exhaustive = select_semantic_plan(&hierarchy, &profile, &facts, false);
    let names = |plan: &SemanticPlan| {
        plan.plan
            .families
            .iter()
            .map(|family| (family.name, family.roles.clone()))
            .collect::<Vec<_>>()
    };
    assert_eq!(names(&pruned), names(&exhaustive));
    assert_eq!(pruned.allocations.len(), exhaustive.allocations.len());
    assert!(pruned.allocations.len() >= 3);
    for (left, right) in pruned.allocations.iter().zip(&exhaustive.allocations) {
        assert_eq!(left.family, right.family);
        assert_eq!(left.roles, right.roles);
        assert_eq!(left.source, right.source);
        assert_eq!(left.output, right.output);
        assert_eq!(left.measured_saliency, right.measured_saliency);
    }
}

#[test]
fn selected_families_stand_apart() {
    let profile = five_source_profile();
    let contexts = seeds(&["#111111"]);
    let contexts = SyntaxContexts {
        ordinary: &contexts,
        rendered: &contexts,
    };
    let hierarchy = MergePlan::hierarchy(3);
    let facts = family_facts(
        &mut Search::default(),
        &hierarchy,
        &profile,
        &contexts,
        ["#eeeeee", "#777777"],
    )
    .unwrap();
    let semantic = select_semantic_plan(&hierarchy, &profile, &facts, true);
    let outputs = semantic
        .allocations
        .iter()
        .map(|allocation| allocation.output.as_str())
        .chain(["#eeeeee", "#777777"])
        .collect::<Vec<_>>();
    for (index, first) in outputs.iter().enumerate() {
        for second in &outputs[index + 1..outputs.len().max(index + 1)] {
            if index + 2 == outputs.len() {
                continue;
            }
            assert!(delta_e(first, second).unwrap() >= 0.025 - 1e-9);
            assert!(cvd_distance(first, second).unwrap() >= 0.020 - 1e-9);
        }
    }
}

fn border_policy() -> StructurePolicy {
    StructurePolicy {
        passive: bounded(1.10, 1.20, 1.45),
        normal: bounded(1.16, 1.35, 1.95),
        minimum_hierarchy_step: 0.01,
    }
}

#[test]
fn tinted_borders_stay_on_one_side_including_faded_dividers() {
    for (canvas, panel, elevated, chrome, inactive, foreground) in [
        (
            "#dfe4c4", "#d5daba", "#f9f9f7", "#cdd2b2", "#cdd2b2", "#12211d",
        ),
        (
            "#1e2326", "#242a2d", "#2c3337", "#181b1c", "#30383c", "#d3c6aa",
        ),
        (
            "#202020", "#242424", "#303030", "#181818", "#282828", "#eeeeee",
        ),
    ] {
        let (passive, normal) = derive(
            &BorderSurfaces {
                canvas,
                panel,
                elevated,
                chrome,
                inactive_tab: inactive,
            },
            foreground,
            &border_policy(),
        )
        .unwrap();

        let foreground_luminance = relative_luminance(foreground).unwrap();
        let canvas_luminance = relative_luminance(canvas).unwrap();
        let lighter = foreground_luminance > canvas_luminance;
        let weak = relative_luminance(&passive).unwrap();
        let strong = relative_luminance(&normal).unwrap();

        for background in [canvas, panel, elevated, chrome, inactive] {
            let base = relative_luminance(background).unwrap();
            let hierarchy_preserved = if lighter {
                strong > weak && weak >= base
            } else {
                strong < weak && weak <= base
            };
            assert!(hierarchy_preserved);

            for border in [&passive, &normal] {
                let overlay = apply_opacity(border, 0.6).unwrap();
                let faded = render_layers(background, &[&overlay]).unwrap();
                let faded_contrast = contrast_ratio(&faded, background).unwrap();
                let opaque_contrast = contrast_ratio(border, background).unwrap();
                let faded_luminance = relative_luminance(&faded).unwrap();

                assert!(faded_contrast <= opaque_contrast);
                assert_eq!(faded_luminance > base, lighter);
            }
        }

        let source = oklab_to_oklch(lab(canvas).unwrap());
        for border in [&passive, &normal] {
            let actual = oklab_to_oklch(lab(border).unwrap());
            if source[1] < 0.001 {
                assert!(actual[1] < 0.001);
                continue;
            }

            let hue_distance = (actual[2] - source[2]).abs();
            let shortest_hue_distance = hue_distance.min(TAU - hue_distance);
            assert!(shortest_hue_distance < 0.15);
        }

        assert!(contrast_ratio(&passive, elevated).unwrap() >= 1.10);
        assert!(contrast_ratio(&normal, panel).unwrap() >= 1.16);
    }
}

#[test]
fn incompatible_surfaces_still_have_a_deterministic_endpoint() {
    for foreground in ["#000000", "#ffffff"] {
        let generated = derive(
            &BorderSurfaces {
                canvas: "#777777",
                panel: "#000000",
                elevated: "#ffffff",
                chrome: "#222222",
                inactive_tab: "#dddddd",
            },
            foreground,
            &border_policy(),
        )
        .unwrap();

        assert_eq!(generated, (foreground.to_owned(), foreground.to_owned()));
    }
}
