//! What a search may be asked for, and which requests are consistent.

use crate::scalar::{
    lemma_comparison_is_numeric, lemma_one, lemma_twenty_one, one, twenty_one, zero, Scalar,
    INFINITE,
};
use vstd::arithmetic::power2::pow2;
use vstd::prelude::*;

verus! {

/// Why a request is refused.
#[derive(Clone, Debug)]
pub enum NumericFault {
    /// The value is not finite or below the whole number `minimum`.
    BelowMinimum { name: String, minimum: u32, value: Scalar },
    /// The value is not finite or not within the whole numbers `minimum..=maximum`.
    OutsideRange { name: String, minimum: u32, maximum: u32, value: Scalar },
    /// Two values contradict each other.
    Inconsistent { message: String },
}

/// What a [`NumericFault`] says.
pub enum FaultView {
    BelowMinimum { name: Seq<char>, minimum: u32, value: Scalar },
    OutsideRange { name: Seq<char>, minimum: u32, maximum: u32, value: Scalar },
    Inconsistent { message: Seq<char> },
}

impl View for NumericFault {
    type V = FaultView;

    open spec fn view(&self) -> FaultView {
        match self {
            NumericFault::BelowMinimum { name, minimum, value } => FaultView::BelowMinimum {
                name: name@,
                minimum: *minimum,
                value: *value,
            },
            NumericFault::OutsideRange { name, minimum, maximum, value } =>
                FaultView::OutsideRange {
                name: name@,
                minimum: *minimum,
                maximum: *maximum,
                value: *value,
            },
            NumericFault::Inconsistent { message } => FaultView::Inconsistent { message: message@ },
        }
    }
}

/// Whether a request was accepted or refused with exactly this fault.
pub open spec fn reports(
    result: core::result::Result<(), NumericFault>,
    fault: Option<FaultView>,
) -> bool {
    match result {
        Ok(()) => fault is None,
        Err(found) => fault == Some(found@),
    }
}

/// The earlier of two faults.
pub open spec fn first_fault(
    first: Option<FaultView>,
    second: Option<FaultView>,
) -> Option<FaultView> {
    if first is Some {
        first
    } else {
        second
    }
}

/// A distance or chroma must be finite and not negative.
pub open spec fn distance_fault(name: Seq<char>, value: Scalar) -> Option<FaultView> {
    if value.is_finite_view() && value.level() >= 0 {
        None
    } else {
        Some(FaultView::BelowMinimum { name, minimum: 0, value })
    }
}

/// A contrast ratio must be finite and between 1 and 21.
pub open spec fn contrast_fault(name: Seq<char>, value: Scalar) -> Option<FaultView> {
    if value.is_finite_view() && (Scalar { bits: 0x3ff0_0000_0000_0000 }).at_most(value)
        && value.at_most(Scalar { bits: 0x4035_0000_0000_0000 }) {
        None
    } else {
        Some(FaultView::OutsideRange { name, minimum: 1, maximum: 21, value })
    }
}

/// A share must be finite and between 0 and 1.
pub open spec fn unit_fault(name: Seq<char>, value: Scalar) -> Option<FaultView> {
    if value.is_finite_view() && value.level() >= 0 && value.at_most(
        Scalar { bits: 0x3ff0_0000_0000_0000 },
    ) {
        None
    } else {
        Some(FaultView::OutsideRange { name, minimum: 0, maximum: 1, value })
    }
}

/// A contrast is accepted exactly when its numeric value lies in 1..=21.
pub proof fn lemma_contrast_domain(name: Seq<char>, value: Scalar)
    ensures
        contrast_fault(name, value) is None <==> value.is_finite_view() && pow2(1074)
            <= value.value() <= 21 * pow2(1074),
{
    lemma_one();
    lemma_twenty_one();
    if value.is_finite_view() {
        lemma_comparison_is_numeric(Scalar { bits: 0x3ff0_0000_0000_0000 }, value);
        lemma_comparison_is_numeric(value, Scalar { bits: 0x4035_0000_0000_0000 });
    }
}

pub open spec fn inconsistency(message: Seq<char>) -> Option<FaultView> {
    Some(FaultView::Inconsistent { message })
}

/// Accepts finite values that are not negative.
pub fn finite_at_least_zero(name: &str, value: Scalar) -> (result: core::result::Result<
    (),
    NumericFault,
>)
    ensures
        reports(result, distance_fault(name@, value)),
{
    if !value.is_finite() || value.is_below(zero()) {
        return Err(NumericFault::BelowMinimum { name: name.to_owned(), minimum: 0, value });
    }
    Ok(())
}

/// Accepts finite values between 1 and 21.
pub fn valid_contrast(name: &str, value: Scalar) -> (result: core::result::Result<
    (),
    NumericFault,
>)
    ensures
        reports(result, contrast_fault(name@, value)),
{
    if !value.is_finite() || !one().is_at_most(value) || !value.is_at_most(twenty_one()) {
        return Err(
            NumericFault::OutsideRange { name: name.to_owned(), minimum: 1, maximum: 21, value },
        );
    }
    Ok(())
}

/// Accepts finite values between 0 and 1.
pub fn finite_unit_interval(name: &str, value: Scalar) -> (result: core::result::Result<
    (),
    NumericFault,
>)
    ensures
        reports(result, unit_fault(name@, value)),
{
    if !value.is_finite() || value.is_below(zero()) || !value.is_at_most(one()) {
        return Err(
            NumericFault::OutsideRange { name: name.to_owned(), minimum: 0, maximum: 1, value },
        );
    }
    Ok(())
}

fn inconsistent(message: &str) -> (result: core::result::Result<(), NumericFault>)
    ensures
        result matches Err(fault) && Some(fault@) == inconsistency(message@),
{
    Err(NumericFault::Inconsistent { message: message.to_owned() })
}

/// What a band measures.
#[derive(Clone, Copy, Debug, PartialEq, Eq, Structural)]
pub enum Domain {
    Contrast,
    Distance,
}

/// A floor for a metric, with an optional preference and an optional ceiling.
#[derive(Clone, Copy, Debug)]
pub struct MetricBand {
    pub minimum: Scalar,
    pub preferred: Option<Scalar>,
    pub maximum: Option<Scalar>,
}

pub open spec fn domain_fault(domain: Domain, name: Seq<char>, value: Scalar) -> Option<FaultView> {
    match domain {
        Domain::Contrast => contrast_fault(name, value),
        Domain::Distance => distance_fault(name, value),
    }
}

fn in_domain(domain: Domain, name: &str, value: Scalar) -> (result: core::result::Result<
    (),
    NumericFault,
>)
    ensures
        reports(result, domain_fault(domain, name@, value)),
{
    match domain {
        Domain::Contrast => valid_contrast(name, value),
        Domain::Distance => finite_at_least_zero(name, value),
    }
}

fn labelled(name: &str, part: &str) -> (label: String)
    ensures
        label@ == name@ + part@,
{
    let mut label = name.to_owned();
    label.append(part);
    label
}

impl MetricBand {
    pub fn floor(minimum: Scalar) -> (band: Self)
        ensures
            band == (MetricBand { minimum, preferred: None, maximum: None }),
    {
        MetricBand { minimum, preferred: None, maximum: None }
    }

    pub fn bounded(minimum: Scalar, preferred: Scalar, maximum: Scalar) -> (band: Self)
        ensures
            band == (MetricBand { minimum, preferred: Some(preferred), maximum: Some(maximum) }),
    {
        MetricBand { minimum, preferred: Some(preferred), maximum: Some(maximum) }
    }

    pub fn with_preference(minimum: Scalar, preferred: Scalar) -> (band: Self)
        ensures
            band == (MetricBand { minimum, preferred: Some(preferred), maximum: None }),
    {
        MetricBand { minimum, preferred: Some(preferred), maximum: None }
    }

    pub fn minimum(self) -> (minimum: Scalar)
        ensures
            minimum == self.minimum,
    {
        self.minimum
    }

    pub fn preferred(self) -> (preferred: Option<Scalar>)
        ensures
            preferred == self.preferred,
    {
        self.preferred
    }

    pub fn maximum(self) -> (maximum: Option<Scalar>)
        ensures
            maximum == self.maximum,
    {
        self.maximum
    }

    /// The first thing that is wrong with the band.
    pub open spec fn fault(self, name: Seq<char>, domain: Domain) -> Option<FaultView> {
        let preferred = match self.preferred {
            None => None,
            Some(preferred) => first_fault(
                domain_fault(domain, name + " preferred"@, preferred),
                if preferred.less(self.minimum) {
                    inconsistency(name + " preferred cannot be below its minimum"@)
                } else {
                    None
                },
            ),
        };
        let maximum = match self.maximum {
            None => None,
            Some(maximum) => first_fault(
                domain_fault(domain, name + " maximum"@, maximum),
                if maximum.less(self.minimum) {
                    inconsistency(name + " maximum cannot be below its minimum"@)
                } else if self.preferred matches Some(preferred) && maximum.less(preferred) {
                    inconsistency(name + " preferred cannot exceed its maximum"@)
                } else {
                    None
                },
            ),
        };
        first_fault(
            domain_fault(domain, name + " minimum"@, self.minimum),
            first_fault(preferred, maximum),
        )
    }

    /// Accepts a band whose values lie in the domain and in order.
    pub fn validate(self, name: &str, domain: Domain) -> (result: core::result::Result<
        (),
        NumericFault,
    >)
        ensures
            reports(result, self.fault(name@, domain)),
    {
        in_domain(domain, labelled(name, " minimum").as_str(), self.minimum)?;
        if let Some(preferred) = self.preferred {
            in_domain(domain, labelled(name, " preferred").as_str(), preferred)?;
            if preferred.is_below(self.minimum) {
                return inconsistent(
                    labelled(name, " preferred cannot be below its minimum").as_str(),
                );
            }
        }
        if let Some(maximum) = self.maximum {
            in_domain(domain, labelled(name, " maximum").as_str(), maximum)?;
            if maximum.is_below(self.minimum) {
                return inconsistent(
                    labelled(name, " maximum cannot be below its minimum").as_str(),
                );
            }
            if let Some(preferred) = self.preferred {
                if maximum.is_below(preferred) {
                    return inconsistent(
                        labelled(name, " preferred cannot exceed its maximum").as_str(),
                    );
                }
            }
        }
        Ok(())
    }
}

/// The bounds of a color fit.
#[derive(Clone, Copy, Debug)]
pub struct FitBounds {
    pub contrast: MetricBand,
    pub lower_lightness: Scalar,
    pub upper_lightness: Scalar,
    pub lower_chroma: Scalar,
    pub upper_chroma: Scalar,
    pub prefer_background: bool,
}

impl FitBounds {
    /// Bounds on contrast alone.
    pub fn new(contrast: MetricBand) -> (bounds: Self)
        ensures
            bounds.contrast == contrast,
            bounds.lower_lightness.value() == 0,
            bounds.upper_lightness.bits == 0x3ff0_0000_0000_0000,
            bounds.lower_chroma.value() == 0,
            bounds.upper_chroma.bits == INFINITE,
            !bounds.prefer_background,
    {
        FitBounds {
            contrast,
            lower_lightness: zero(),
            upper_lightness: one(),
            lower_chroma: zero(),
            upper_chroma: Scalar { bits: INFINITE },
            prefer_background: false,
        }
    }

    /// The first thing that is wrong with the bounds.
    pub open spec fn fault(self) -> Option<FaultView> {
        let lightness = first_fault(
            unit_fault("lower lightness"@, self.lower_lightness),
            first_fault(
                unit_fault("upper lightness"@, self.upper_lightness),
                if self.upper_lightness.less(self.lower_lightness) {
                    inconsistency("lower lightness cannot exceed upper lightness"@)
                } else {
                    None
                },
            ),
        );
        let chroma = first_fault(
            distance_fault("lower chroma"@, self.lower_chroma),
            if self.upper_chroma.is_nan_view() || self.upper_chroma.level() < 0 {
                inconsistency("upper chroma must be non-negative and not NaN"@)
            } else if self.upper_chroma.less(self.lower_chroma) {
                inconsistency("lower chroma cannot exceed upper chroma"@)
            } else {
                None
            },
        );
        first_fault(
            self.contrast.fault("color contrast"@, Domain::Contrast),
            first_fault(lightness, chroma),
        )
    }

    pub fn validate(self) -> (result: core::result::Result<(), NumericFault>)
        ensures
            reports(result, self.fault()),
    {
        self.contrast.validate("color contrast", Domain::Contrast)?;
        finite_unit_interval("lower lightness", self.lower_lightness)?;
        finite_unit_interval("upper lightness", self.upper_lightness)?;
        if self.upper_lightness.is_below(self.lower_lightness) {
            return inconsistent("lower lightness cannot exceed upper lightness");
        }
        finite_at_least_zero("lower chroma", self.lower_chroma)?;
        if self.upper_chroma.is_nan() || self.upper_chroma.is_below(zero()) {
            return inconsistent("upper chroma must be non-negative and not NaN");
        }
        if self.upper_chroma.is_below(self.lower_chroma) {
            return inconsistent("lower chroma cannot exceed upper chroma");
        }
        Ok(())
    }
}

/// A contrast for each background that replaces or caps the band's own.
#[derive(Clone, Debug)]
pub enum PerBackgroundContrast {
    Uniform,
    Floors(Vec<Scalar>),
    Ceilings(Vec<Scalar>),
}

pub open spec fn each_contrast_fault(label: Seq<char>, values: Seq<Scalar>, from: int) -> Option<
    FaultView,
>
    decreases values.len() - from,
{
    if from < 0 || from >= values.len() {
        None
    } else {
        first_fault(
            contrast_fault(label, values[from]),
            each_contrast_fault(label, values, from + 1),
        )
    }
}

fn each_contrast(label: &str, values: &Vec<Scalar>) -> (result: core::result::Result<
    (),
    NumericFault,
>)
    ensures
        reports(result, each_contrast_fault(label@, values@, 0)),
{
    let mut index: usize = 0;
    while index < values.len()
        invariant
            index <= values@.len(),
            each_contrast_fault(label@, values@, 0) == each_contrast_fault(
                label@,
                values@,
                index as int,
            ),
        decreases values@.len() - index,
    {
        valid_contrast(label, values[index])?;
        index += 1;
    }
    Ok(())
}

impl PerBackgroundContrast {
    pub fn floors(values: Vec<Scalar>) -> (contrast: Self)
        ensures
            contrast == if values@.len() == 0 {
                PerBackgroundContrast::Uniform
            } else {
                PerBackgroundContrast::Floors(values)
            },
    {
        if values.len() == 0 {
            PerBackgroundContrast::Uniform
        } else {
            PerBackgroundContrast::Floors(values)
        }
    }

    pub fn ceilings(values: Vec<Scalar>) -> (contrast: Self)
        ensures
            contrast == if values@.len() == 0 {
                PerBackgroundContrast::Uniform
            } else {
                PerBackgroundContrast::Ceilings(values)
            },
    {
        if values.len() == 0 {
            PerBackgroundContrast::Uniform
        } else {
            PerBackgroundContrast::Ceilings(values)
        }
    }

    /// The first thing that is wrong for this number of backgrounds.
    pub open spec fn fault(&self, backgrounds: nat) -> Option<FaultView> {
        match self {
            PerBackgroundContrast::Uniform => None,
            PerBackgroundContrast::Floors(values) => first_fault(
                if values@.len() != backgrounds {
                    inconsistency("contrast floors must match the background count"@)
                } else {
                    None
                },
                each_contrast_fault("color contrast floor"@, values@, 0),
            ),
            PerBackgroundContrast::Ceilings(values) => first_fault(
                if values@.len() != backgrounds {
                    inconsistency("contrast ceilings must match the background count"@)
                } else {
                    None
                },
                each_contrast_fault("color contrast ceiling"@, values@, 0),
            ),
        }
    }

    pub fn validate(&self, backgrounds: usize) -> (result: core::result::Result<(), NumericFault>)
        ensures
            reports(result, self.fault(backgrounds as nat)),
    {
        match self {
            PerBackgroundContrast::Uniform => Ok(()),
            PerBackgroundContrast::Floors(values) => {
                if values.len() != backgrounds {
                    return inconsistent("contrast floors must match the background count");
                }
                each_contrast("color contrast floor", values)
            },
            PerBackgroundContrast::Ceilings(values) => {
                if values.len() != backgrounds {
                    return inconsistent("contrast ceilings must match the background count");
                }
                each_contrast("color contrast ceiling", values)
            },
        }
    }
}

/// A color that a fitted one must stand apart from.
#[derive(Clone, Debug)]
pub struct Reference {
    pub color: String,
    pub contrast: Scalar,
    pub delta_e: Scalar,
}

pub open spec fn references_fault(
    contrast_label: Seq<char>,
    delta_label: Seq<char>,
    references: Seq<Reference>,
    from: int,
) -> Option<FaultView>
    decreases references.len() - from,
{
    if from < 0 || from >= references.len() {
        None
    } else {
        first_fault(
            contrast_fault(contrast_label, references[from].contrast),
            first_fault(
                distance_fault(delta_label, references[from].delta_e),
                references_fault(contrast_label, delta_label, references, from + 1),
            ),
        )
    }
}

fn each_reference(
    contrast_label: &str,
    delta_label: &str,
    references: &Vec<Reference>,
) -> (result: core::result::Result<
    (),
    NumericFault,
>)
    ensures
        reports(result, references_fault(contrast_label@, delta_label@, references@, 0)),
{
    let mut index: usize = 0;
    while index < references.len()
        invariant
            index <= references@.len(),
            references_fault(contrast_label@, delta_label@, references@, 0) == references_fault(
                contrast_label@,
                delta_label@,
                references@,
                index as int,
            ),
        decreases references@.len() - index,
    {
        valid_contrast(contrast_label, references[index].contrast)?;
        finite_at_least_zero(delta_label, references[index].delta_e)?;
        index += 1;
    }
    Ok(())
}

/// A request for an opaque state color.
#[derive(Clone, Debug)]
pub struct StateFitRequest {
    pub backgrounds: Vec<String>,
    pub contrast: MetricBand,
    pub delta_e: MetricBand,
    pub minimum_chroma: Scalar,
    pub references: Vec<Reference>,
}

impl StateFitRequest {
    pub fn new(
        backgrounds: Vec<String>,
        contrast: MetricBand,
        delta_e: MetricBand,
    ) -> (request: Self)
        ensures
            request.backgrounds == backgrounds,
            request.contrast == contrast,
            request.delta_e == delta_e,
            request.minimum_chroma.value() == 0,
            request.references@.len() == 0,
    {
        StateFitRequest {
            backgrounds,
            contrast,
            delta_e,
            minimum_chroma: zero(),
            references: Vec::new(),
        }
    }

    /// The request with a floor for the chroma of the state.
    pub fn with_minimum_chroma(self, minimum_chroma: Scalar) -> (request: Self)
        ensures
            request == (StateFitRequest { minimum_chroma, ..self }),
    {
        StateFitRequest { minimum_chroma, ..self }
    }

    /// The request with colors that the state must stand apart from.
    pub fn with_references(self, references: Vec<Reference>) -> (request: Self)
        ensures
            request == (StateFitRequest { references, ..self }),
    {
        StateFitRequest { references, ..self }
    }

    /// The first thing that is wrong with the request.
    pub open spec fn fault(&self) -> Option<FaultView> {
        first_fault(
            self.contrast.fault("state contrast"@, Domain::Contrast),
            first_fault(
                self.delta_e.fault("state delta E"@, Domain::Distance),
                first_fault(
                    distance_fault("state minimum chroma"@, self.minimum_chroma),
                    references_fault(
                        "state reference contrast"@,
                        "state reference delta E"@,
                        self.references@,
                        0,
                    ),
                ),
            ),
        )
    }

    pub fn validate(&self) -> (result: core::result::Result<(), NumericFault>)
        ensures
            reports(result, self.fault()),
    {
        self.contrast.validate("state contrast", Domain::Contrast)?;
        self.delta_e.validate("state delta E", Domain::Distance)?;
        finite_at_least_zero("state minimum chroma", self.minimum_chroma)?;
        each_reference(
            "state reference contrast",
            "state reference delta E",
            &self.references,
        )
    }
}

/// How two colors must differ, in measurements.
#[derive(Clone, Copy, Debug)]
pub struct MeasuredContract {
    pub contrast: Scalar,
    pub normal_delta_e: Scalar,
    pub cvd_delta_e: Scalar,
    pub separation_alternative: Option<(Scalar, Scalar, Scalar)>,
}

/// How far the two colors of a pair must stand apart.
#[derive(Clone, Copy, Debug)]
pub struct PairConstraints {
    pub foreground_contrast: Scalar,
    pub pair_contrast: Scalar,
    pub normal_delta: Scalar,
    pub cvd_delta: Scalar,
    pub lightness_delta: Scalar,
    pub minimum_chroma: Scalar,
    /// A contrast, or a normal and a color-deficient distance, one of which must
    /// be reached as well.
    pub separation_alternative: Option<(Scalar, Scalar, Scalar)>,
    pub prefer_background: bool,
    pub balance_rendered_salience: bool,
}

impl PairConstraints {
    pub fn new(
        foreground_contrast: Scalar,
        pair_contrast: Scalar,
        normal_delta: Scalar,
        cvd_delta: Scalar,
    ) -> (constraints: Self)
        ensures
            constraints.foreground_contrast == foreground_contrast,
            constraints.pair_contrast == pair_contrast,
            constraints.normal_delta == normal_delta,
            constraints.cvd_delta == cvd_delta,
            constraints.lightness_delta.value() == 0,
            constraints.minimum_chroma.value() == 0,
            constraints.separation_alternative is None,
            !constraints.prefer_background,
            !constraints.balance_rendered_salience,
    {
        PairConstraints {
            foreground_contrast,
            pair_contrast,
            normal_delta,
            cvd_delta,
            lightness_delta: zero(),
            minimum_chroma: zero(),
            separation_alternative: None,
            prefer_background: false,
            balance_rendered_salience: false,
        }
    }

    /// What a contract asks of a pair that is read against a background.
    pub fn from_contract(
        foreground_contrast: Scalar,
        contract: MeasuredContract,
    ) -> (constraints: Self)
        ensures
            constraints.foreground_contrast == foreground_contrast,
            constraints.pair_contrast == contract.contrast,
            constraints.normal_delta == contract.normal_delta_e,
            constraints.cvd_delta == contract.cvd_delta_e,
            constraints.lightness_delta.value() == 0,
            constraints.minimum_chroma.value() == 0,
            constraints.separation_alternative == contract.separation_alternative,
            !constraints.prefer_background,
            !constraints.balance_rendered_salience,
    {
        PairConstraints {
            separation_alternative: contract.separation_alternative,
            ..PairConstraints::new(
                foreground_contrast,
                contract.contrast,
                contract.normal_delta_e,
                contract.cvd_delta_e,
            )
        }
    }

    /// The constraints with a floor for the chroma of both colors.
    pub fn with_minimum_chroma(self, minimum_chroma: Scalar) -> (constraints: Self)
        ensures
            constraints == (PairConstraints { minimum_chroma, ..self }),
    {
        PairConstraints { minimum_chroma, ..self }
    }

    /// The constraints with a second way to stand apart.
    pub fn with_separation_alternative(
        self,
        separation_alternative: Option<(Scalar, Scalar, Scalar)>,
    ) -> (constraints: Self)
        ensures
            constraints == (PairConstraints { separation_alternative, ..self }),
    {
        PairConstraints { separation_alternative, ..self }
    }

    /// The constraints with colors close to the background preferred.
    pub fn prefer_background(self) -> (constraints: Self)
        ensures
            constraints == (PairConstraints { prefer_background: true, ..self }),
    {
        PairConstraints { prefer_background: true, ..self }
    }

    /// The constraints with equally salient colors preferred.
    pub fn balance_rendered_salience(self) -> (constraints: Self)
        ensures
            constraints == (PairConstraints { balance_rendered_salience: true, ..self }),
    {
        PairConstraints { balance_rendered_salience: true, ..self }
    }

    /// The first thing that is wrong with the constraints.
    pub open spec fn fault(self) -> Option<FaultView> {
        let alternative = match self.separation_alternative {
            None => None,
            Some((contrast, normal, cvd)) => first_fault(
                contrast_fault("alternative pair contrast"@, contrast),
                first_fault(
                    distance_fault("alternative normal delta E"@, normal),
                    distance_fault("alternative CVD delta E"@, cvd),
                ),
            ),
        };
        first_fault(
            contrast_fault("foreground contrast"@, self.foreground_contrast),
            first_fault(
                contrast_fault("pair contrast"@, self.pair_contrast),
                first_fault(
                    distance_fault("normal delta E"@, self.normal_delta),
                    first_fault(
                        distance_fault("CVD delta E"@, self.cvd_delta),
                        first_fault(
                            distance_fault("lightness delta"@, self.lightness_delta),
                            first_fault(
                                distance_fault("minimum chroma"@, self.minimum_chroma),
                                alternative,
                            ),
                        ),
                    ),
                ),
            ),
        )
    }

    pub fn validate(self) -> (result: core::result::Result<(), NumericFault>)
        ensures
            reports(result, self.fault()),
    {
        valid_contrast("foreground contrast", self.foreground_contrast)?;
        valid_contrast("pair contrast", self.pair_contrast)?;
        finite_at_least_zero("normal delta E", self.normal_delta)?;
        finite_at_least_zero("CVD delta E", self.cvd_delta)?;
        finite_at_least_zero("lightness delta", self.lightness_delta)?;
        finite_at_least_zero("minimum chroma", self.minimum_chroma)?;
        if let Some((contrast, normal, cvd)) = self.separation_alternative {
            valid_contrast("alternative pair contrast", contrast)?;
            finite_at_least_zero("alternative normal delta E", normal)?;
            finite_at_least_zero("alternative CVD delta E", cvd)?;
        }
        Ok(())
    }
}

/// How an overlay is shown while a control is active.
#[derive(Clone, Copy, Debug)]
pub struct RuntimeState {
    pub opacity: Scalar,
    pub contrast: Scalar,
    pub delta_e: Scalar,
}

/// A foreground that stays readable over an overlay.
#[derive(Clone, Debug)]
pub struct ReadableForeground {
    pub color: String,
    pub contrast: Scalar,
}

/// A color that a runtime overlay must stand apart from.
#[derive(Clone, Debug)]
pub struct RuntimeReference {
    pub color: String,
    pub contrast: Scalar,
    pub delta_e: Scalar,
    pub base_step: Scalar,
}

/// A request for a translucent fill.
#[derive(Clone, Debug)]
pub struct OverlayFitRequest {
    pub backgrounds: Vec<String>,
    pub readability_backgrounds: Vec<String>,
    pub contrast: MetricBand,
    pub delta_e: MetricBand,
    pub runtime_state: Option<RuntimeState>,
    pub readable_foregrounds: Vec<ReadableForeground>,
    pub rendered_references: Vec<Reference>,
    pub runtime_rendered_references: Vec<RuntimeReference>,
    pub prefer_source_fidelity: bool,
}

pub open spec fn foregrounds_fault(
    foregrounds: Seq<ReadableForeground>,
    from: int,
) -> Option<FaultView>
    decreases foregrounds.len() - from,
{
    if from < 0 || from >= foregrounds.len() {
        None
    } else {
        first_fault(
            contrast_fault("readable foreground contrast"@, foregrounds[from].contrast),
            foregrounds_fault(foregrounds, from + 1),
        )
    }
}

pub open spec fn runtime_references_fault(references: Seq<RuntimeReference>, from: int) -> Option<
    FaultView,
>
    decreases references.len() - from,
{
    if from < 0 || from >= references.len() {
        None
    } else {
        first_fault(
            contrast_fault("runtime reference contrast"@, references[from].contrast),
            first_fault(
                distance_fault("runtime reference delta E"@, references[from].delta_e),
                first_fault(
                    distance_fault("runtime reference base step"@, references[from].base_step),
                    runtime_references_fault(references, from + 1),
                ),
            ),
        )
    }
}

impl OverlayFitRequest {
    pub fn new(
        backgrounds: Vec<String>,
        contrast: MetricBand,
        delta_e: MetricBand,
    ) -> (request: Self)
        ensures
            request.backgrounds == backgrounds,
            request.contrast == contrast,
            request.delta_e == delta_e,
            request.readability_backgrounds@.len() == 0,
            request.runtime_state is None,
            request.readable_foregrounds@.len() == 0,
            request.rendered_references@.len() == 0,
            request.runtime_rendered_references@.len() == 0,
            !request.prefer_source_fidelity,
    {
        OverlayFitRequest {
            backgrounds,
            readability_backgrounds: Vec::new(),
            contrast,
            delta_e,
            runtime_state: None,
            readable_foregrounds: Vec::new(),
            rendered_references: Vec::new(),
            runtime_rendered_references: Vec::new(),
            prefer_source_fidelity: false,
        }
    }

    /// The request with a state in which the overlay is shown fainter.
    pub fn with_runtime_state(self, runtime_state: RuntimeState) -> (request: Self)
        ensures
            request == (OverlayFitRequest { runtime_state: Some(runtime_state), ..self }),
    {
        OverlayFitRequest { runtime_state: Some(runtime_state), ..self }
    }

    /// The request with texts that must stay readable over the overlay.
    pub fn with_readable_foregrounds(
        self,
        readable_foregrounds: Vec<ReadableForeground>,
    ) -> (request: Self)
        ensures
            request == (OverlayFitRequest { readable_foregrounds, ..self }),
    {
        OverlayFitRequest { readable_foregrounds, ..self }
    }

    /// The request with more backgrounds on which the texts must stay readable.
    pub fn with_readability_backgrounds(
        self,
        readability_backgrounds: Vec<String>,
    ) -> (request: Self)
        ensures
            request == (OverlayFitRequest { readability_backgrounds, ..self }),
    {
        OverlayFitRequest { readability_backgrounds, ..self }
    }

    /// The request with overlays that this one must stand apart from.
    pub fn with_rendered_references(self, rendered_references: Vec<Reference>) -> (request: Self)
        ensures
            request == (OverlayFitRequest { rendered_references, ..self }),
    {
        OverlayFitRequest { rendered_references, ..self }
    }

    /// The request with overlays that this one must stand apart from when it is shown
    /// fainter.
    pub fn with_runtime_rendered_references(
        self,
        runtime_rendered_references: Vec<RuntimeReference>,
    ) -> (request: Self)
        ensures
            request == (OverlayFitRequest { runtime_rendered_references, ..self }),
    {
        OverlayFitRequest { runtime_rendered_references, ..self }
    }

    /// The request with overlays close to the seed preferred.
    pub fn prefer_source_fidelity(self) -> (request: Self)
        ensures
            request == (OverlayFitRequest { prefer_source_fidelity: true, ..self }),
    {
        OverlayFitRequest { prefer_source_fidelity: true, ..self }
    }

    /// The first thing that is wrong with the request.
    pub open spec fn fault(&self) -> Option<FaultView> {
        let runtime = match self.runtime_state {
            None => None,
            Some(state) => first_fault(
                unit_fault("runtime opacity factor"@, state.opacity),
                first_fault(
                    contrast_fault("runtime target contrast"@, state.contrast),
                    distance_fault("runtime minimum delta E"@, state.delta_e),
                ),
            ),
        };
        first_fault(
            self.contrast.fault("overlay contrast"@, Domain::Contrast),
            first_fault(
                self.delta_e.fault("overlay delta E"@, Domain::Distance),
                first_fault(
                    runtime,
                    first_fault(
                        foregrounds_fault(self.readable_foregrounds@, 0),
                        first_fault(
                            references_fault(
                                "rendered reference contrast"@,
                                "rendered reference delta E"@,
                                self.rendered_references@,
                                0,
                            ),
                            runtime_references_fault(self.runtime_rendered_references@, 0),
                        ),
                    ),
                ),
            ),
        )
    }

    pub fn validate(&self) -> (result: core::result::Result<(), NumericFault>)
        ensures
            reports(result, self.fault()),
    {
        self.contrast.validate("overlay contrast", Domain::Contrast)?;
        self.delta_e.validate("overlay delta E", Domain::Distance)?;
        if let Some(state) = self.runtime_state {
            finite_unit_interval("runtime opacity factor", state.opacity)?;
            valid_contrast("runtime target contrast", state.contrast)?;
            finite_at_least_zero("runtime minimum delta E", state.delta_e)?;
        }
        let mut index: usize = 0;
        while index < self.readable_foregrounds.len()
            invariant
                index <= self.readable_foregrounds@.len(),
                foregrounds_fault(self.readable_foregrounds@, 0) == foregrounds_fault(
                    self.readable_foregrounds@,
                    index as int,
                ),
                self.contrast.fault("overlay contrast"@, Domain::Contrast) is None,
                self.delta_e.fault("overlay delta E"@, Domain::Distance) is None,
                self.runtime_state matches Some(state) ==> unit_fault(
                    "runtime opacity factor"@,
                    state.opacity,
                ) is None && contrast_fault("runtime target contrast"@, state.contrast) is None
                    && distance_fault("runtime minimum delta E"@, state.delta_e) is None,
            decreases self.readable_foregrounds@.len() - index,
        {
            valid_contrast(
                "readable foreground contrast",
                self.readable_foregrounds[index].contrast,
            )?;
            index += 1;
        }
        each_reference(
            "rendered reference contrast",
            "rendered reference delta E",
            &self.rendered_references,
        )?;
        each_runtime_reference(&self.runtime_rendered_references)
    }
}

fn each_runtime_reference(references: &Vec<RuntimeReference>) -> (result: core::result::Result<
    (),
    NumericFault,
>)
    ensures
        reports(result, runtime_references_fault(references@, 0)),
{
    let mut index: usize = 0;
    while index < references.len()
        invariant
            index <= references@.len(),
            runtime_references_fault(references@, 0) == runtime_references_fault(
                references@,
                index as int,
            ),
        decreases references@.len() - index,
    {
        let reference = &references[index];
        valid_contrast("runtime reference contrast", reference.contrast)?;
        finite_at_least_zero("runtime reference delta E", reference.delta_e)?;
        finite_at_least_zero("runtime reference base step", reference.base_step)?;
        index += 1;
    }
    Ok(())
}

/// A request for two translucent fills that stand apart.
#[derive(Clone, Debug)]
pub struct OverlayPairRequest {
    pub first: OverlayFitRequest,
    pub second: OverlayFitRequest,
    pub constraints: PairConstraints,
    pub minimum_alpha: u8,
    pub maximum_alpha: u8,
    pub frontier_limit: usize,
}

pub open spec fn alpha_range_fault(minimum_alpha: u8, maximum_alpha: u8) -> Option<FaultView> {
    if minimum_alpha > maximum_alpha {
        inconsistency("overlay minimum alpha cannot exceed maximum alpha"@)
    } else {
        None
    }
}

/// Accepts a range of alphas that is not empty.
pub fn validate_alpha_range(minimum_alpha: u8, maximum_alpha: u8) -> (result: core::result::Result<
    (),
    NumericFault,
>)
    ensures
        reports(result, alpha_range_fault(minimum_alpha, maximum_alpha)),
{
    if minimum_alpha > maximum_alpha {
        return inconsistent("overlay minimum alpha cannot exceed maximum alpha");
    }
    Ok(())
}

impl OverlayPairRequest {
    pub fn new(
        first: OverlayFitRequest,
        second: OverlayFitRequest,
        constraints: PairConstraints,
    ) -> (request: Self)
        ensures
            request.first == first,
            request.second == second,
            request.constraints == constraints,
            request.minimum_alpha == 1,
            request.maximum_alpha == crate::constants::OVERLAY_MAX_ALPHA,
            request.frontier_limit == 512,
    {
        OverlayPairRequest {
            first,
            second,
            constraints,
            minimum_alpha: 1,
            maximum_alpha: crate::constants::OVERLAY_MAX_ALPHA,
            frontier_limit: 512,
        }
    }

    /// The request with other limits of its search.
    pub fn with_limits(self, maximum_alpha: u8, frontier_limit: usize) -> (request: Self)
        ensures
            request == (OverlayPairRequest { maximum_alpha, frontier_limit, ..self }),
    {
        OverlayPairRequest { maximum_alpha, frontier_limit, ..self }
    }

    /// The request with another range of alphas and another limit of its search.
    pub fn with_alpha_range(
        self,
        minimum_alpha: u8,
        maximum_alpha: u8,
        frontier_limit: usize,
    ) -> (request: Self)
        ensures
            request == (
                OverlayPairRequest { minimum_alpha, maximum_alpha, frontier_limit, ..self }
            ),
    {
        OverlayPairRequest { minimum_alpha, maximum_alpha, frontier_limit, ..self }
    }

    /// The first thing that is wrong with the request.
    pub open spec fn fault(&self) -> Option<FaultView> {
        first_fault(
            self.first.fault(),
            first_fault(
                self.second.fault(),
                first_fault(
                    self.constraints.fault(),
                    first_fault(
                        alpha_range_fault(self.minimum_alpha, self.maximum_alpha),
                        if self.frontier_limit < 128 {
                            inconsistency("overlay frontier limit must be at least 128"@)
                        } else {
                            None
                        },
                    ),
                ),
            ),
        )
    }

    pub fn validate(&self) -> (result: core::result::Result<(), NumericFault>)
        ensures
            reports(result, self.fault()),
    {
        self.first.validate()?;
        self.second.validate()?;
        self.constraints.validate()?;
        validate_alpha_range(self.minimum_alpha, self.maximum_alpha)?;
        if self.frontier_limit < 128 {
            return inconsistent("overlay frontier limit must be at least 128");
        }
        Ok(())
    }
}

} // verus!
