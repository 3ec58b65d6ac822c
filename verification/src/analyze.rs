//! Interpretation of a capture: what each trial should have shown, and how the
//! measurements are scored against it.
//!
//! A trial whose description was accepted is held to that description; an
//! unmanaged one to sRGB; a refused one to nothing. A PQ signal stands for
//! absolute luminances, every other one for luminances relative to the brightest
//! patch that was measured.
use vstd::prelude::*;

use crate::capture::export::{brightest, is_brightest};
use crate::capture::{Capture, FormatTrial, Negotiation, Sample};
use crate::number::{greatest, greatest_is_an_upper_bound, greatest_of, Double, Pair, Triple};
use crate::text::{ahead_of, debug_text, same_text};

verus! {

// ---------------------------------------------------------------------------
// Colour spaces and transfer functions
// ---------------------------------------------------------------------------

/// A CIE 1931 chromaticity, in ten-thousandths.
#[derive(Clone, Copy, Debug, PartialEq, Eq, Structural)]
pub struct Chromaticity {
    pub x: u32,
    pub y: u32,
}

/// The primaries and the white point of an RGB colour space.
#[derive(Clone, Copy, Debug, PartialEq, Eq, Structural)]
pub struct ColorSpace {
    pub red: Chromaticity,
    pub green: Chromaticity,
    pub blue: Chromaticity,
    pub white: Chromaticity,
}

/// A chromaticity.
pub open spec fn xy(x: u32, y: u32) -> Chromaticity {
    Chromaticity { x, y }
}

/// The colour space of a name.
pub open spec fn space_named(name: Seq<char>) -> Option<ColorSpace> {
    if name == "srgb"@ {
        Some(
            ColorSpace {
                red: xy(6400, 3300),
                green: xy(3000, 6000),
                blue: xy(1500, 600),
                white: xy(3127, 3290),
            },
        )
    } else if name == "bt2020"@ {
        Some(
            ColorSpace {
                red: xy(7080, 2920),
                green: xy(1700, 7970),
                blue: xy(1310, 460),
                white: xy(3127, 3290),
            },
        )
    } else if name == "display_p3"@ {
        Some(
            ColorSpace {
                red: xy(6800, 3200),
                green: xy(2650, 6900),
                blue: xy(1500, 600),
                white: xy(3127, 3290),
            },
        )
    } else if name == "dci_p3"@ {
        Some(
            ColorSpace {
                red: xy(6800, 3200),
                green: xy(2650, 6900),
                blue: xy(1500, 600),
                white: xy(3140, 3510),
            },
        )
    } else if name == "adobe_rgb"@ {
        Some(
            ColorSpace {
                red: xy(6400, 3300),
                green: xy(2100, 7100),
                blue: xy(1500, 600),
                white: xy(3127, 3290),
            },
        )
    } else {
        None
    }
}

fn point(x: u32, y: u32) -> (res: Chromaticity)
    ensures
        res == xy(x, y),
{
    Chromaticity { x, y }
}

impl ColorSpace {
    /// sRGB and BT.709.
    pub fn srgb() -> (res: ColorSpace)
        ensures
            Some(res) == space_named("srgb"@),
    {
        ColorSpace {
            red: point(6400, 3300),
            green: point(3000, 6000),
            blue: point(1500, 600),
            white: point(3127, 3290),
        }
    }

    /// The colour space that a capture or the protocol names.
    pub fn from_name(name: &str) -> (res: Option<ColorSpace>)
        ensures
            res == space_named(name@),
    {
        if same_text(name, "srgb") {
            Some(ColorSpace::srgb())
        } else if same_text(name, "bt2020") {
            Some(
                ColorSpace {
                    red: point(7080, 2920),
                    green: point(1700, 7970),
                    blue: point(1310, 460),
                    white: point(3127, 3290),
                },
            )
        } else if same_text(name, "display_p3") {
            Some(
                ColorSpace {
                    red: point(6800, 3200),
                    green: point(2650, 6900),
                    blue: point(1500, 600),
                    white: point(3127, 3290),
                },
            )
        } else if same_text(name, "dci_p3") {
            Some(
                ColorSpace {
                    red: point(6800, 3200),
                    green: point(2650, 6900),
                    blue: point(1500, 600),
                    white: point(3140, 3510),
                },
            )
        } else if same_text(name, "adobe_rgb") {
            Some(
                ColorSpace {
                    red: point(6400, 3300),
                    green: point(2100, 7100),
                    blue: point(1500, 600),
                    white: point(3127, 3290),
                },
            )
        } else {
            None
        }
    }
}

/// How a code value decodes to light.
#[derive(Clone, Copy, Debug, PartialEq, Eq, Structural)]
pub enum Transfer {
    /// The sRGB curve.
    Srgb,
    /// PQ, to absolute luminance.
    Pq,
    /// BT.1886 with an ideal black, a power of 2.4.
    Bt1886,
    /// A power of 2.2.
    Gamma22,
    /// A power of 2.8.
    Gamma28,
}

/// The curve of a name.
pub open spec fn transfer_named(name: Seq<char>) -> Option<Transfer> {
    if name == "srgb"@ || name == "ext_srgb"@ {
        Some(Transfer::Srgb)
    } else if name == "st2084_pq"@ {
        Some(Transfer::Pq)
    } else if name == "bt1886"@ {
        Some(Transfer::Bt1886)
    } else if name == "gamma22"@ {
        Some(Transfer::Gamma22)
    } else if name == "gamma28"@ {
        Some(Transfer::Gamma28)
    } else {
        None
    }
}

impl Transfer {
    /// The curve that a capture names.
    pub fn from_name(name: &str) -> (res: Option<Transfer>)
        ensures
            res == transfer_named(name@),
    {
        if same_text(name, "srgb") || same_text(name, "ext_srgb") {
            Some(Transfer::Srgb)
        } else if same_text(name, "st2084_pq") {
            Some(Transfer::Pq)
        } else if same_text(name, "bt1886") {
            Some(Transfer::Bt1886)
        } else if same_text(name, "gamma22") {
            Some(Transfer::Gamma22)
        } else if same_text(name, "gamma28") {
            Some(Transfer::Gamma28)
        } else {
            None
        }
    }
}

// ---------------------------------------------------------------------------
// Ground truth
// ---------------------------------------------------------------------------

/// Where a ground truth comes from.
#[derive(Clone, Copy, Debug, PartialEq, Eq, Structural)]
pub enum GroundTruthSource {
    /// The description that the compositor accepted.
    Negotiated,
    /// The assumption about unmanaged trials.
    AssumedSrgb,
}

/// What a trial's measurements are held to.
#[allow(inconsistent_fields)]
#[derive(Debug)]
pub enum GroundTruth {
    Known {
        space: ColorSpace,
        transfer: Transfer,
        /// Name of the transfer function.
        transfer_name: String,
        /// The curve decodes to absolute luminance.
        absolute: bool,
        source: GroundTruthSource,
    },
    /// There is nothing to hold them to.
    Unscored { reason: String },
}

/// A [`GroundTruth`] by the contents of its texts.
#[allow(inconsistent_fields)]
pub ghost enum Truth {
    Known {
        space: ColorSpace,
        transfer: Transfer,
        transfer_name: Seq<char>,
        absolute: bool,
        source: GroundTruthSource,
    },
    Unscored { reason: Seq<char> },
}

impl View for GroundTruth {
    type V = Truth;

    open spec fn view(&self) -> Truth {
        match *self {
            GroundTruth::Known { space, transfer, transfer_name, absolute, source } => Truth::Known {
                space,
                transfer,
                transfer_name: transfer_name@,
                absolute,
                source,
            },
            GroundTruth::Unscored { reason } => Truth::Unscored { reason: reason@ },
        }
    }
}

/// The ground truth that primaries and a transfer function give.
pub open spec fn truth_of(
    primaries: Seq<char>,
    transfer: Seq<char>,
    source: GroundTruthSource,
) -> Truth {
    match (space_named(primaries), transfer_named(transfer)) {
        (None, _) => Truth::Unscored {
            reason: "unmapped primaries "@ + debug_text(primaries),
        },
        (_, None) => Truth::Unscored {
            reason: "unmapped transfer function "@ + debug_text(transfer),
        },
        (Some(space), Some(t)) => Truth::Known {
            space,
            transfer: t,
            transfer_name: transfer,
            absolute: t == Transfer::Pq,
            source,
        },
    }
}

/// The ground truth of a trial.
pub open spec fn trial_truth(trial: FormatTrial) -> Truth {
    match trial.outcome {
        Negotiation::Rejected { cause, message } => Truth::Unscored {
            reason: "rejected ("@ + cause@ + ": "@ + message@ + ")"@,
        },
        Negotiation::Unmanaged => truth_of("srgb"@, "srgb"@, GroundTruthSource::AssumedSrgb),
        Negotiation::Accepted { .. } => match trial.requested {
            Some(d) => truth_of(
                d.primaries@,
                d.transfer_function@,
                GroundTruthSource::Negotiated,
            ),
            None => Truth::Unscored { reason: "accepted but no description recorded"@ },
        },
    }
}

fn named_truth(primaries: &str, transfer: &str, source: GroundTruthSource) -> (res: GroundTruth)
    ensures
        res@ == truth_of(primaries@, transfer@, source),
{
    let space = match ColorSpace::from_name(primaries) {
        Some(s) => s,
        None => {
            return GroundTruth::Unscored { reason: ahead_of("unmapped primaries ", primaries) };
        },
    };
    let t = match Transfer::from_name(transfer) {
        Some(t) => t,
        None => {
            return GroundTruth::Unscored {
                reason: ahead_of("unmapped transfer function ", transfer),
            };
        },
    };
    GroundTruth::Known {
        space,
        transfer: t,
        transfer_name: transfer.to_owned(),
        absolute: t == Transfer::Pq,
        source,
    }
}

/// Decides what a trial is held to.
pub fn ground_truth_for(trial: &FormatTrial) -> (res: GroundTruth)
    ensures
        res@ == trial_truth(*trial),
{
    match &trial.outcome {
        Negotiation::Rejected { cause, message } => {
            let mut reason = "rejected (".to_owned();
            reason.append(cause.as_str());
            reason.append(": ");
            reason.append(message.as_str());
            reason.append(")");
            GroundTruth::Unscored { reason }
        },
        Negotiation::Unmanaged => named_truth("srgb", "srgb", GroundTruthSource::AssumedSrgb),
        Negotiation::Accepted { .. } => match &trial.requested {
            Some(d) => named_truth(
                d.primaries.as_str(),
                d.transfer_function.as_str(),
                GroundTruthSource::Negotiated,
            ),
            None => GroundTruth::Unscored {
                reason: "accepted but no description recorded".to_owned(),
            },
        },
    }
}

/// A refused trial is held to nothing, and an unmanaged one to sRGB. Absolute
/// luminances are those of PQ alone.
pub proof fn truth_follows_the_outcome(trial: FormatTrial)
    ensures
        trial.outcome is Rejected ==> trial_truth(trial) is Unscored,
        trial.outcome is Unmanaged ==> (trial_truth(trial) matches Truth::Known {
            space,
            transfer,
            absolute,
            ..
        } && Some(space) == space_named("srgb"@) && transfer == Transfer::Srgb && !absolute),
        trial_truth(trial) matches Truth::Known { transfer_name, absolute, .. } ==> absolute == (
        transfer_name == "st2084_pq"@),
{
    reveal_strlit("srgb");
    reveal_strlit("ext_srgb");
    reveal_strlit("st2084_pq");
    assert("srgb"@.len() == 4);
    assert("ext_srgb"@.len() == 8);
    assert("st2084_pq"@.len() == 9);
}

/// The chromaticities of a red, green and blue primary and of a white.
pub open spec fn has_chromaticities(
    space: ColorSpace,
    red: (u32, u32),
    green: (u32, u32),
    blue: (u32, u32),
    white: (u32, u32),
) -> bool {
    &&& (space.red.x, space.red.y) == red
    &&& (space.green.x, space.green.y) == green
    &&& (space.blue.x, space.blue.y) == blue
    &&& (space.white.x, space.white.y) == white
}

proof fn lemma_space_names()
    ensures
        "srgb"@ != "bt2020"@,
        "srgb"@ != "display_p3"@,
        "srgb"@ != "dci_p3"@,
        "srgb"@ != "adobe_rgb"@,
        "bt2020"@ != "display_p3"@,
        "bt2020"@ != "dci_p3"@,
        "bt2020"@ != "adobe_rgb"@,
        "display_p3"@ != "dci_p3"@,
        "display_p3"@ != "adobe_rgb"@,
        "dci_p3"@ != "adobe_rgb"@,
{
    reveal_strlit("srgb");
    reveal_strlit("bt2020");
    reveal_strlit("display_p3");
    reveal_strlit("dci_p3");
    reveal_strlit("adobe_rgb");
    assert("srgb"@.len() == 4 && "bt2020"@.len() == 6 && "display_p3"@.len() == 10 && "dci_p3"@.len()
        == 6 && "adobe_rgb"@.len() == 9);
    assert("bt2020"@[0] == 'b' && "dci_p3"@[0] == 'd');
}

proof fn lemma_curve_names()
    ensures
        "srgb"@ != "ext_srgb"@,
        "srgb"@ != "st2084_pq"@,
        "srgb"@ != "bt1886"@,
        "srgb"@ != "gamma22"@,
        "srgb"@ != "gamma28"@,
        "ext_srgb"@ != "st2084_pq"@,
        "ext_srgb"@ != "bt1886"@,
        "ext_srgb"@ != "gamma22"@,
        "ext_srgb"@ != "gamma28"@,
        "st2084_pq"@ != "bt1886"@,
        "st2084_pq"@ != "gamma22"@,
        "st2084_pq"@ != "gamma28"@,
        "bt1886"@ != "gamma22"@,
        "bt1886"@ != "gamma28"@,
        "gamma22"@ != "gamma28"@,
{
    reveal_strlit("srgb");
    reveal_strlit("ext_srgb");
    reveal_strlit("st2084_pq");
    reveal_strlit("bt1886");
    reveal_strlit("gamma22");
    reveal_strlit("gamma28");
    assert("srgb"@.len() == 4 && "ext_srgb"@.len() == 8 && "st2084_pq"@.len() == 9 && "bt1886"@.len()
        == 6 && "gamma22"@.len() == 7 && "gamma28"@.len() == 7);
    assert("gamma22"@[6] == '2' && "gamma28"@[6] == '8');
}

/// An accepted trial is held to the primaries that its description names, by their
/// standard chromaticities, and to no others.
pub proof fn accepted_trials_are_held_to_their_primaries(trial: FormatTrial, res: GroundTruth)
    requires
        call_ensures(ground_truth_for, (&trial,), res),
        trial.outcome is Accepted,
        trial.requested is Some,
    ensures
        ({
            let name = trial.requested->0.primaries@;
            let d65 = (3127u32, 3290u32);
            &&& res matches GroundTruth::Known { space, .. } ==> {
                &&& Some(space) == space_named(name)
                &&& name == "srgb"@ ==> has_chromaticities(
                    space,
                    (6400, 3300),
                    (3000, 6000),
                    (1500, 600),
                    d65,
                )
                &&& name == "bt2020"@ ==> has_chromaticities(
                    space,
                    (7080, 2920),
                    (1700, 7970),
                    (1310, 460),
                    d65,
                )
                &&& name == "display_p3"@ ==> has_chromaticities(
                    space,
                    (6800, 3200),
                    (2650, 6900),
                    (1500, 600),
                    d65,
                )
                &&& name == "dci_p3"@ ==> has_chromaticities(
                    space,
                    (6800, 3200),
                    (2650, 6900),
                    (1500, 600),
                    (3140, 3510),
                )
                &&& name == "adobe_rgb"@ ==> has_chromaticities(
                    space,
                    (6400, 3300),
                    (2100, 7100),
                    (1500, 600),
                    d65,
                )
                &&& name == "srgb"@ || name == "bt2020"@ || name == "display_p3"@ || name
                    == "dci_p3"@ || name == "adobe_rgb"@
            }
        }),
{
    lemma_space_names();
}

/// An accepted trial is held to the transfer function that its description names;
/// luminances are absolute under PQ and under no other.
pub proof fn accepted_trials_are_held_to_their_curve(trial: FormatTrial, res: GroundTruth)
    requires
        call_ensures(ground_truth_for, (&trial,), res),
        trial.outcome is Accepted,
        trial.requested is Some,
    ensures
        ({
            let name = trial.requested->0.transfer_function@;
            &&& res matches GroundTruth::Known {
                transfer,
                transfer_name,
                absolute,
                source,
                ..
            } ==> {
                &&& Some(transfer) == transfer_named(name)
                &&& transfer_name@ == name
                &&& source == GroundTruthSource::Negotiated
                &&& transfer == Transfer::Srgb <==> name == "srgb"@ || name == "ext_srgb"@
                &&& transfer == Transfer::Pq <==> name == "st2084_pq"@
                &&& transfer == Transfer::Bt1886 <==> name == "bt1886"@
                &&& transfer == Transfer::Gamma22 <==> name == "gamma22"@
                &&& transfer == Transfer::Gamma28 <==> name == "gamma28"@
                &&& absolute <==> name == "st2084_pq"@
            }
        }),
{
    lemma_curve_names();
}

/// A trial is held to something exactly where it was shown unmanaged, or where it
/// was accepted with a description whose two names are known.
pub proof fn known_descriptions_are_scored(trial: FormatTrial, res: GroundTruth)
    requires
        call_ensures(ground_truth_for, (&trial,), res),
    ensures
        trial.outcome is Rejected ==> res is Unscored,
        trial.outcome is Unmanaged ==> (res matches GroundTruth::Known {
            space,
            transfer,
            absolute,
            source,
            ..
        } && has_chromaticities(space, (6400, 3300), (3000, 6000), (1500, 600), (3127, 3290))
            && transfer == Transfer::Srgb && !absolute && source == GroundTruthSource::AssumedSrgb),
        trial.outcome is Accepted && trial.requested is None ==> res is Unscored,
        trial.outcome is Accepted && trial.requested is Some ==> {
            let p = trial.requested->0.primaries@;
            let t = trial.requested->0.transfer_function@;
            res is Known <==> (p == "srgb"@ || p == "bt2020"@ || p == "display_p3"@ || p
                == "dci_p3"@ || p == "adobe_rgb"@) && (t == "srgb"@ || t == "ext_srgb"@ || t
                == "st2084_pq"@ || t == "bt1886"@ || t == "gamma22"@ || t == "gamma28"@)
        },
{
}

// ---------------------------------------------------------------------------
// Scores
// ---------------------------------------------------------------------------

/// Zero.
pub open spec fn zero() -> Double {
    Double { bits: 0 }
}

/// The greatest measured luminance, or zero if there is none above it.
pub open spec fn peak(samples: Seq<Sample>) -> Double
    decreases samples.len(),
{
    if samples.len() == 0 {
        zero()
    } else {
        peak(samples.drop_last()).greater_of(samples.last().measured.xyz.b)
    }
}

/// The luminance that relative encodings are scaled by: the brightest measured.
pub fn anchor_y(samples: &Vec<Sample>) -> (res: Double)
    ensures
        res == peak(samples@),
{
    let mut top = Double { bits: 0 };
    let mut i: usize = 0;
    assert(samples@.take(0).len() == 0);
    while i < samples.len()
        invariant
            i <= samples@.len(),
            top == peak(samples@.take(i as int)),
        decreases samples@.len() - i,
    {
        assert(samples@.take(i + 1).drop_last() == samples@.take(i as int));
        top = top.max(&samples[i].measured.xyz.b);
        i += 1;
    }
    assert(samples@.take(i as int) == samples@);
    top
}

/// The white that colours are placed against: the brightest sample, if it is
/// not black.
pub open spec fn is_reference_white(samples: Seq<Sample>, i: int) -> bool {
    is_brightest(samples, i) && zero().less(samples[i].measured.xyz.b)
}

/// The measured white; none if every sample is black.
pub fn reference_white(samples: &Vec<Sample>) -> (res: Option<Triple>)
    ensures
        match res {
            Some(w) => exists|i: int|
                #[trigger] is_reference_white(samples@, i) && w == samples@[i].measured.xyz,
            None => forall|i: int| !#[trigger] is_reference_white(samples@, i),
        },
{
    match brightest(samples) {
        None => None,
        Some(i) => {
            let w = samples[i].measured.xyz;
            let black = Double { bits: 0 };
            if black.is_less(&w.b) {
                assert(is_reference_white(samples@, i as int));
                Some(w)
            } else {
                assert forall|k: int| !#[trigger] is_reference_white(samples@, k) by {
                    if is_brightest(samples@, k) {
                        assert(samples@[i as int].measured.xyz.b.rank()
                            <= samples@[k].measured.xyz.b.rank());
                        assert(samples@[k].measured.xyz.b.rank()
                            <= samples@[i as int].measured.xyz.b.rank());
                        assert(k == i);
                    }
                }
                None
            }
        },
    }
}

/// What was expected of a sample, and how far the measurement is from it, as
/// the colour arithmetic gives it.
#[derive(Clone, Copy, Debug)]
pub struct Expectation {
    /// Expected chromaticity; none for black.
    pub expected_xy: Option<Pair>,
    /// Expected XYZ, in absolute units.
    pub expected_xyz: Triple,
    /// Expected luminance, in the units of the encoding.
    pub expected_y: Double,
    /// Measured luminance as a fraction of the brightest.
    pub relative_y: Double,
    /// Distance of the chromaticities.
    pub delta_uv: Double,
    /// The colours in CIELAB, against the reference white.
    pub measured_lab: Triple,
    pub expected_lab: Triple,
    /// Distance of the colours.
    pub delta_e: Double,
}

/// Measured and expected luminance of a sample.
#[derive(Clone, Copy, Debug, PartialEq, Eq, Structural)]
pub struct LuminanceComparison {
    pub expected: Double,
    pub measured: Double,
    /// In cd/m2, and not as a fraction of white.
    pub absolute: bool,
}

/// A sample with its scores.
#[derive(Clone, Copy, Debug)]
pub struct AnalyzedSample {
    pub requested: Triple,
    pub measured_xyz: Triple,
    pub measured_xy: Option<Pair>,
    pub expected_xy: Option<Pair>,
    pub expected_xyz: Option<Triple>,
    pub measured_lab: Option<Triple>,
    pub expected_lab: Option<Triple>,
    pub delta_uv: Option<Double>,
    pub delta_e: Option<Double>,
    pub luminance: Option<LuminanceComparison>,
}

/// A sample without scores.
pub open spec fn passed_through(s: Sample) -> AnalyzedSample {
    AnalyzedSample {
        requested: s.requested,
        measured_xyz: s.measured.xyz,
        measured_xy: s.measured.xy,
        expected_xy: None,
        expected_xyz: None,
        measured_lab: None,
        expected_lab: None,
        delta_uv: None,
        delta_e: None,
        luminance: None,
    }
}

/// The measured luminance in the units of the encoding: absolute, or as a
/// fraction of the brightest if there is light at all.
pub open spec fn measured_luminance(s: Sample, absolute: bool, anchor: Double, e: Expectation) -> Double {
    if absolute {
        s.measured.xyz.b
    } else if zero().less(anchor) {
        e.relative_y
    } else {
        zero()
    }
}

/// A sample with its scores: the chromaticities can be compared if neither is
/// black, and the colours if the white is not.
pub open spec fn scored(
    s: Sample,
    absolute: bool,
    anchor: Double,
    white: Triple,
    e: Expectation,
) -> AnalyzedSample {
    let lit = zero().less(white.b);
    AnalyzedSample {
        requested: s.requested,
        measured_xyz: s.measured.xyz,
        measured_xy: s.measured.xy,
        expected_xy: e.expected_xy,
        expected_xyz: Some(e.expected_xyz),
        measured_lab: if lit {
            Some(e.measured_lab)
        } else {
            None
        },
        expected_lab: if lit {
            Some(e.expected_lab)
        } else {
            None
        },
        delta_uv: if s.measured.xy is Some && e.expected_xy is Some {
            Some(e.delta_uv)
        } else {
            None
        },
        delta_e: if lit {
            Some(e.delta_e)
        } else {
            None
        },
        luminance: Some(
            LuminanceComparison {
                expected: e.expected_y,
                measured: measured_luminance(s, absolute, anchor, e),
                absolute,
            },
        ),
    }
}

fn pass_through(s: &Sample) -> (res: AnalyzedSample)
    ensures
        res == passed_through(*s),
{
    AnalyzedSample {
        requested: s.requested,
        measured_xyz: s.measured.xyz,
        measured_xy: s.measured.xy,
        expected_xy: None,
        expected_xyz: None,
        measured_lab: None,
        expected_lab: None,
        delta_uv: None,
        delta_e: None,
        luminance: None,
    }
}

fn score(s: &Sample, absolute: bool, anchor: Double, white: Triple, e: &Expectation) -> (res:
    AnalyzedSample)
    ensures
        res == scored(*s, absolute, anchor, white, *e),
{
    let black = Double { bits: 0 };
    let lit: bool = black.is_less(&white.b);
    let measured = if absolute {
        s.measured.xyz.b
    } else if black.is_less(&anchor) {
        e.relative_y
    } else {
        black
    };
    AnalyzedSample {
        requested: s.requested,
        measured_xyz: s.measured.xyz,
        measured_xy: s.measured.xy,
        expected_xy: e.expected_xy,
        expected_xyz: Some(e.expected_xyz),
        measured_lab: if lit {
            Some(e.measured_lab)
        } else {
            None
        },
        expected_lab: if lit {
            Some(e.expected_lab)
        } else {
            None
        },
        delta_uv: if s.measured.xy.is_some() && e.expected_xy.is_some() {
            Some(e.delta_uv)
        } else {
            None
        },
        delta_e: if lit {
            Some(e.delta_e)
        } else {
            None
        },
        luminance: Some(LuminanceComparison { expected: e.expected_y, measured, absolute }),
    }
}

/// The scores that there are.
pub open spec fn present(scores: Seq<Option<Double>>) -> Seq<Double>
    decreases scores.len(),
{
    if scores.len() == 0 {
        seq![]
    } else {
        match scores.last() {
            Some(d) => present(scores.drop_last()).push(d),
            None => present(scores.drop_last()),
        }
    }
}

/// The scores of a trial taken together.
#[derive(Debug)]
pub struct TrialSummary {
    /// Samples that have a score.
    pub scored_samples: usize,
    /// The chromaticity distances, in the order of the samples.
    pub delta_uv: Vec<Double>,
    pub max_delta_uv: Double,
    /// The colour distances, in the order of the samples.
    pub delta_e: Vec<Double>,
    pub max_delta_e: Double,
    /// The brightest measured luminance.
    pub measured_white_y: Double,
}

pub open spec fn uv_scores(samples: Seq<AnalyzedSample>) -> Seq<Option<Double>> {
    samples.map_values(|s: AnalyzedSample| s.delta_uv)
}

pub open spec fn e_scores(samples: Seq<AnalyzedSample>) -> Seq<Option<Double>> {
    samples.map_values(|s: AnalyzedSample| s.delta_e)
}

/// A trial's summary; none if nothing was scored.
pub open spec fn summarizes(
    res: Option<TrialSummary>,
    samples: Seq<AnalyzedSample>,
    anchor: Double,
) -> bool {
    let uv = present(uv_scores(samples));
    let de = present(e_scores(samples));
    if uv.len() == 0 && de.len() == 0 {
        res is None
    } else {
        res matches Some(t) && {
            &&& t.scored_samples == if uv.len() > de.len() {
                uv.len()
            } else {
                de.len()
            }
            &&& t.delta_uv@ == uv
            &&& t.max_delta_uv == greatest(uv)
            &&& t.delta_e@ == de
            &&& t.max_delta_e == greatest(de)
            &&& t.measured_white_y == anchor
        }
    }
}

/// Takes the scores of a trial together.
pub fn summarize(samples: &Vec<AnalyzedSample>, anchor: Double) -> (res: Option<TrialSummary>)
    ensures
        summarizes(res, samples@, anchor),
{
    let mut uv: Vec<Double> = Vec::new();
    let mut de: Vec<Double> = Vec::new();
    let ghost us = uv_scores(samples@);
    let ghost es = e_scores(samples@);
    let mut i: usize = 0;
    assert(us.take(0).len() == 0 && es.take(0).len() == 0);
    while i < samples.len()
        invariant
            i <= samples@.len(),
            us == uv_scores(samples@),
            es == e_scores(samples@),
            uv@ == present(us.take(i as int)),
            de@ == present(es.take(i as int)),
        decreases samples@.len() - i,
    {
        assert(us.take(i + 1).drop_last() == us.take(i as int));
        assert(es.take(i + 1).drop_last() == es.take(i as int));
        assert(us.take(i + 1).last() == samples@[i as int].delta_uv);
        assert(es.take(i + 1).last() == samples@[i as int].delta_e);
        let s = samples[i];
        if let Some(d) = s.delta_uv {
            uv.push(d);
        }
        if let Some(d) = s.delta_e {
            de.push(d);
        }
        i += 1;
    }
    assert(us.take(i as int) == us);
    assert(es.take(i as int) == es);
    if uv.len() == 0 && de.len() == 0 {
        return None;
    }
    let scored_samples: usize = if uv.len() > de.len() {
        uv.len()
    } else {
        de.len()
    };
    let max_delta_uv = greatest_of(&uv);
    let max_delta_e = greatest_of(&de);
    Some(
        TrialSummary {
            scored_samples,
            delta_uv: uv,
            max_delta_uv,
            delta_e: de,
            max_delta_e,
            measured_white_y: anchor,
        },
    )
}

/// A trial's interpretation.
#[derive(Debug)]
pub struct AnalyzedTrial {
    pub pixel_format: String,
    pub ground_truth: GroundTruth,
    pub samples: Vec<AnalyzedSample>,
    pub summary: Option<TrialSummary>,
    /// The white that colours are placed against.
    pub reference_white_xyz: Option<Triple>,
}

/// The white that a trial's colours are placed against: the measured one, or
/// another where every sample is black.
pub open spec fn white_for(samples: Seq<Sample>, fallback: Triple, w: Triple) -> bool {
    if exists|i: int| #[trigger] is_reference_white(samples, i) {
        exists|i: int| #[trigger] is_reference_white(samples, i) && w == samples[i].measured.xyz
    } else {
        w == fallback
    }
}

/// A trial's interpretation, given what was expected of its samples and the
/// white to place colours against where none was measured.
pub open spec fn interprets(
    res: AnalyzedTrial,
    trial: FormatTrial,
    fallback: Triple,
    expectations: Seq<Expectation>,
) -> bool {
    &&& res.pixel_format@ == trial.pixel_format@
    &&& res.ground_truth@ == trial_truth(trial)
    &&& match trial_truth(trial) {
        Truth::Unscored { .. } => {
            &&& res.samples@ == trial.samples@.map_values(|s: Sample| passed_through(s))
            &&& res.summary is None
            &&& res.reference_white_xyz is None
        },
        Truth::Known { absolute, .. } => {
            &&& res.reference_white_xyz matches Some(w) && {
                &&& white_for(trial.samples@, fallback, w)
                &&& res.samples@ == Seq::new(
                    trial.samples@.len(),
                    |i: int|
                        scored(
                            trial.samples@[i],
                            absolute,
                            peak(trial.samples@),
                            w,
                            expectations[i],
                        ),
                )
            }
            &&& summarizes(res.summary, res.samples@, peak(trial.samples@))
        },
    }
}

/// The samples of a trial have expectations, if it is held to anything.
pub open spec fn is_expected(trial: FormatTrial, expectations: Seq<Expectation>) -> bool {
    trial_truth(trial) is Known ==> expectations.len() == trial.samples@.len()
}

/// Interprets a trial. `expectations` are what was expected of its samples, and
/// `fallback` is the white to place colours against where none was measured;
/// neither matters if there is nothing to hold the trial to.
pub fn analyze_trial(
    trial: &FormatTrial,
    fallback: Triple,
    expectations: &Vec<Expectation>,
) -> (res: AnalyzedTrial)
    requires
        is_expected(*trial, expectations@),
    ensures
        interprets(res, *trial, fallback, expectations@),
{
    let ground_truth = ground_truth_for(trial);
    let pixel_format = trial.pixel_format.clone();
    let mut samples: Vec<AnalyzedSample> = Vec::new();
    let mut i: usize = 0;
    let absolute: bool = match &ground_truth {
        GroundTruth::Known { absolute, .. } => *absolute,
        GroundTruth::Unscored { .. } => {
            while i < trial.samples.len()
                invariant
                    i <= trial.samples@.len(),
                    samples@ == trial.samples@.take(i as int).map_values(
                        |s: Sample| passed_through(s),
                    ),
                decreases trial.samples@.len() - i,
            {
                samples.push(pass_through(&trial.samples[i]));
                i += 1;
                assert(samples@ == trial.samples@.take(i as int).map_values(
                    |s: Sample| passed_through(s),
                ));
            }
            assert(trial.samples@.take(i as int) == trial.samples@);
            return AnalyzedTrial {
                pixel_format,
                ground_truth,
                samples,
                summary: None,
                reference_white_xyz: None,
            };
        },
    };
    let anchor = anchor_y(&trial.samples);
    let white = match reference_white(&trial.samples) {
        Some(w) => w,
        None => fallback,
    };
    while i < trial.samples.len()
        invariant
            i <= trial.samples@.len(),
            expectations@.len() == trial.samples@.len(),
            anchor == peak(trial.samples@),
            samples@ == Seq::new(
                i as nat,
                |k: int| scored(trial.samples@[k], absolute, anchor, white, expectations@[k]),
            ),
        decreases trial.samples@.len() - i,
    {
        samples.push(score(&trial.samples[i], absolute, anchor, white, &expectations[i]));
        i += 1;
        assert(samples@ == Seq::new(
            i as nat,
            |k: int| scored(trial.samples@[k], absolute, anchor, white, expectations@[k]),
        ));
    }
    let summary = summarize(&samples, anchor);
    assert(samples@ == Seq::new(
        trial.samples@.len(),
        |i: int| scored(trial.samples@[i], absolute, peak(trial.samples@), white, expectations@[i]),
    ));
    AnalyzedTrial {
        pixel_format,
        ground_truth,
        samples,
        summary,
        reference_white_xyz: Some(white),
    }
}

/// A capture's interpretation, trial by trial.
#[derive(Debug)]
pub struct AnalyzedCapture {
    pub trials: Vec<AnalyzedTrial>,
}

/// Interprets every trial of a capture. For each there are the white to place
/// colours against where none was measured, and what was expected of its
/// samples.
pub fn analyze(
    capture: &Capture,
    fallbacks: &Vec<Triple>,
    expectations: &Vec<Vec<Expectation>>,
) -> (res: AnalyzedCapture)
    requires
        fallbacks@.len() == capture.trials@.len(),
        expectations@.len() == capture.trials@.len(),
        forall|i: int|
            0 <= i < capture.trials@.len() ==> is_expected(
                #[trigger] capture.trials@[i],
                expectations@[i]@,
            ),
    ensures
        res.trials@.len() == capture.trials@.len(),
        forall|i: int|
            0 <= i < res.trials@.len() ==> interprets(
                #[trigger] res.trials@[i],
                capture.trials@[i],
                fallbacks@[i],
                expectations@[i]@,
            ),
{
    let mut trials: Vec<AnalyzedTrial> = Vec::new();
    let mut i: usize = 0;
    while i < capture.trials.len()
        invariant
            i <= capture.trials@.len(),
            trials@.len() == i,
            fallbacks@.len() == capture.trials@.len(),
            expectations@.len() == capture.trials@.len(),
            forall|k: int|
                0 <= k < capture.trials@.len() ==> is_expected(
                    #[trigger] capture.trials@[k],
                    expectations@[k]@,
                ),
            forall|k: int|
                0 <= k < i ==> interprets(
                    #[trigger] trials@[k],
                    capture.trials@[k],
                    fallbacks@[k],
                    expectations@[k]@,
                ),
        decreases capture.trials@.len() - i,
    {
        assert(is_expected(capture.trials@[i as int], expectations@[i as int]@));
        let t = analyze_trial(&capture.trials[i], fallbacks[i], &expectations[i]);
        trials.push(t);
        i += 1;
    }
    AnalyzedCapture { trials }
}

// ---------------------------------------------------------------------------
// What the scores are
// ---------------------------------------------------------------------------

/// The luminance that relative encodings are scaled by is the brightest that was
/// measured: no sample is brighter, and it is a sample's or zero.
pub proof fn anchors_are_the_brightest(samples: Seq<Sample>, i: int)
    requires
        0 <= i < samples.len(),
    ensures
        !peak(samples).less(samples[i].measured.xyz.b),
        !peak(samples).nan(),
        peak(samples) == zero() || exists|k: int|
            0 <= k < samples.len() && peak(samples) == (#[trigger] samples[k]).measured.xyz.b,
{
    let ys = samples.map_values(|s: Sample| s.measured.xyz.b);
    lemma_peak(samples);
    greatest_is_an_upper_bound(ys, i);
    assert(ys[i] == samples[i].measured.xyz.b);
    if ys.contains(greatest(ys)) {
        let k = choose|k: int| 0 <= k < ys.len() && ys[k] == greatest(ys);
        assert(peak(samples) == samples[k].measured.xyz.b);
    }
}

proof fn lemma_peak(samples: Seq<Sample>)
    ensures
        peak(samples) == greatest(samples.map_values(|s: Sample| s.measured.xyz.b)),
    decreases samples.len(),
{
    let ys = samples.map_values(|s: Sample| s.measured.xyz.b);
    if samples.len() > 0 {
        lemma_peak(samples.drop_last());
        assert(ys.drop_last() == samples.drop_last().map_values(|s: Sample| s.measured.xyz.b));
    }
}

/// The white of a trial is the colour of a sample that no other outshines, and it is
/// not black; there is none only if no sample is above black.
pub proof fn whites_are_measured(samples: Vec<Sample>, res: Option<Triple>, j: int)
    requires
        call_ensures(reference_white, (&samples,), res),
        0 <= j < samples@.len(),
    ensures
        match res {
            Some(w) => {
                &&& zero().less(w.b)
                &&& samples@[j].measured.xyz.b.rank() <= w.b.rank()
                &&& exists|k: int|
                    0 <= k < samples@.len() && (#[trigger] samples@[k]).measured.xyz == w
            },
            None => !is_brightest(samples@, j) || !zero().less(samples@[j].measured.xyz.b),
        },
{
    match res {
        Some(w) => {
            let i = choose|i: int|
                #[trigger] is_reference_white(samples@, i) && w == samples@[i].measured.xyz;
            assert(samples@[i].measured.xyz == w);
        },
        None => {
            assert(!is_reference_white(samples@, j));
        },
    }
}

/// A trial that is held to nothing passes its samples through, and gives no scores,
/// no summary and no white.
pub proof fn unscored_trials_pass_through(
    trial: FormatTrial,
    fallback: Triple,
    expectations: Vec<Expectation>,
    res: AnalyzedTrial,
    i: int,
)
    requires
        call_ensures(analyze_trial, (&trial, fallback, &expectations), res),
        res.ground_truth is Unscored,
        0 <= i < trial.samples@.len(),
    ensures
        res.samples@.len() == trial.samples@.len(),
        res.summary is None,
        res.reference_white_xyz is None,
        ({
            let a = res.samples@[i];
            let s = trial.samples@[i];
            &&& a.requested == s.requested
            &&& a.measured_xyz == s.measured.xyz
            &&& a.measured_xy == s.measured.xy
            &&& a.expected_xy is None && a.expected_xyz is None && a.expected_lab is None
            &&& a.measured_lab is None && a.delta_uv is None && a.delta_e is None
            &&& a.luminance is None
        }),
{
}

/// A trial that is held to something is scored sample by sample: each keeps what
/// was asked for and measured, and is given what was expected of that very sample.
/// Chromaticities are compared where both are there, colours where the white is
/// not black, and luminances always: in absolute units under an absolute curve, and
/// otherwise as a fraction of the brightest.
pub proof fn scores_belong_to_their_samples(
    trial: FormatTrial,
    fallback: Triple,
    expectations: Vec<Expectation>,
    res: AnalyzedTrial,
    i: int,
)
    requires
        is_expected(trial, expectations@),
        call_ensures(analyze_trial, (&trial, fallback, &expectations), res),
        res.ground_truth is Known,
        0 <= i < trial.samples@.len(),
    ensures
        res.samples@.len() == trial.samples@.len(),
        res.reference_white_xyz is Some,
        ({
            let a = res.samples@[i];
            let s = trial.samples@[i];
            let e = expectations@[i];
            let lit = (Double { bits: 0 }).less(res.reference_white_xyz->0.b);
            let absolute = res.ground_truth->absolute;
            &&& a.requested == s.requested
            &&& a.measured_xyz == s.measured.xyz
            &&& a.measured_xy == s.measured.xy
            &&& a.expected_xy == e.expected_xy
            &&& a.expected_xyz == Some(e.expected_xyz)
            &&& a.measured_lab is Some == lit && (lit ==> a.measured_lab == Some(e.measured_lab))
            &&& a.expected_lab is Some == lit && (lit ==> a.expected_lab == Some(e.expected_lab))
            &&& a.delta_e is Some == lit && (lit ==> a.delta_e == Some(e.delta_e))
            &&& a.delta_uv is Some <==> s.measured.xy is Some && e.expected_xy is Some
            &&& a.delta_uv matches Some(d) ==> d == e.delta_uv
            &&& a.luminance matches Some(l) && {
                &&& l.expected == e.expected_y
                &&& l.absolute == absolute
                &&& absolute ==> l.measured == s.measured.xyz.b
                &&& !absolute && (exists|k: int|
                    0 <= k < trial.samples@.len() && (Double { bits: 0 }).less(
                        (#[trigger] trial.samples@[k]).measured.xyz.b,
                    )) ==> l.measured == e.relative_y
                &&& !absolute && (forall|k: int|
                    0 <= k < trial.samples@.len() ==> !(Double { bits: 0 }).less(
                        (#[trigger] trial.samples@[k]).measured.xyz.b,
                    )) ==> l.measured == (Double { bits: 0 })
            }
        }),
{
    anchors_are_the_brightest(trial.samples@, i);
    if exists|k: int|
        0 <= k < trial.samples@.len() && (Double { bits: 0 }).less(
            (#[trigger] trial.samples@[k]).measured.xyz.b,
        ) {
        let k = choose|k: int|
            0 <= k < trial.samples@.len() && (Double { bits: 0 }).less(
                (#[trigger] trial.samples@[k]).measured.xyz.b,
            );
        anchors_are_the_brightest(trial.samples@, k);
        assert(zero().less(peak(trial.samples@)));
    }
}

/// The white that a scored trial is placed against is the measured one, or the
/// fallback where nothing was above black. Its format is named as recorded.
pub proof fn trials_are_placed_against_their_white(
    trial: FormatTrial,
    fallback: Triple,
    expectations: Vec<Expectation>,
    res: AnalyzedTrial,
    white: Option<Triple>,
)
    requires
        is_expected(trial, expectations@),
        call_ensures(analyze_trial, (&trial, fallback, &expectations), res),
        call_ensures(reference_white, (&trial.samples,), white),
        res.ground_truth is Known,
    ensures
        res.pixel_format@ == trial.pixel_format@,
        res.reference_white_xyz == Some(white.unwrap_or(fallback)),
{
    let w = res.reference_white_xyz->0;
    match white {
        Some(v) => {
            let i = choose|i: int|
                #[trigger] is_reference_white(trial.samples@, i) && v
                    == trial.samples@[i].measured.xyz;
            let k = choose|k: int|
                #[trigger] is_reference_white(trial.samples@, k) && w
                    == trial.samples@[k].measured.xyz;
            assert(is_reference_white(trial.samples@, k));
            assert(trial.samples@[i].measured.xyz.b.rank() <= trial.samples@[k].measured.xyz.b.rank());
            assert(trial.samples@[k].measured.xyz.b.rank() <= trial.samples@[i].measured.xyz.b.rank());
            assert(i == k);
        },
        None => {},
    }
}

/// How many of some scores are there.
pub open spec fn scores_there(scores: Seq<Option<Double>>) -> nat {
    scores.filter(|s: Option<Double>| s is Some).len()
}

proof fn lemma_present_count(scores: Seq<Option<Double>>)
    ensures
        present(scores).len() == scores_there(scores),
    decreases scores.len(),
{
    reveal(Seq::filter);
    if scores.len() > 0 {
        lemma_present_count(scores.drop_last());
    }
}

/// The scores that there are, each once and in its place: a score comes after as
/// many others as there are in front of it.
pub proof fn present_scores_keep_their_order(scores: Seq<Option<Double>>, i: int)
    requires
        0 <= i < scores.len(),
    ensures
        present(scores).len() == scores_there(scores),
        scores[i] matches Some(d) ==> scores_there(scores.take(i)) < present(scores).len()
            && present(scores)[scores_there(scores.take(i)) as int] == d,
    decreases scores.len(),
{
    let front = scores.drop_last();
    lemma_present_count(scores);
    lemma_present_count(front);
    if i < front.len() {
        present_scores_keep_their_order(front, i);
        assert(front.take(i) == scores.take(i));
    } else {
        assert(scores.take(i) == front);
    }
}

/// A summary takes the scores of sample `i`: they are in its lists, in the order of
/// the samples, and do not exceed its greatest ones. The greatest are scores or zero,
/// and the number of scored samples is the length of the longer list.
pub open spec fn takes_the_scores(
    t: TrialSummary,
    samples: Seq<AnalyzedSample>,
    i: int,
) -> bool {
    let uv = samples.map_values(|s: AnalyzedSample| s.delta_uv);
    let de = samples.map_values(|s: AnalyzedSample| s.delta_e);
    &&& t.delta_uv@.len() == scores_there(uv)
    &&& t.delta_e@.len() == scores_there(de)
    &&& samples[i].delta_uv matches Some(d) ==> {
        &&& t.delta_uv@[scores_there(uv.take(i)) as int] == d
        &&& !t.max_delta_uv.less(d)
    }
    &&& samples[i].delta_e matches Some(d) ==> {
        &&& t.delta_e@[scores_there(de.take(i)) as int] == d
        &&& !t.max_delta_e.less(d)
    }
    &&& t.max_delta_uv.bits == 0 || t.delta_uv@.contains(t.max_delta_uv)
    &&& t.max_delta_e.bits == 0 || t.delta_e@.contains(t.max_delta_e)
    &&& t.scored_samples >= t.delta_uv@.len() && t.scored_samples >= t.delta_e@.len()
    &&& t.scored_samples == t.delta_uv@.len() || t.scored_samples == t.delta_e@.len()
}

proof fn lemma_takes_the_scores(
    samples: Seq<AnalyzedSample>,
    anchor: Double,
    res: Option<TrialSummary>,
    i: int,
)
    requires
        summarizes(res, samples, anchor),
        0 <= i < samples.len(),
    ensures
        res matches Some(t) ==> takes_the_scores(t, samples, i),
        res is None ==> samples[i].delta_uv is None && samples[i].delta_e is None,
{
    let uv = samples.map_values(|s: AnalyzedSample| s.delta_uv);
    let de = samples.map_values(|s: AnalyzedSample| s.delta_e);
    assert(uv == uv_scores(samples));
    assert(de == e_scores(samples));
    assert(uv[i] == samples[i].delta_uv && de[i] == samples[i].delta_e);
    present_scores_keep_their_order(uv, i);
    present_scores_keep_their_order(de, i);
    if let Some(t) = res {
        if t.delta_uv@.len() > 0 {
            greatest_is_an_upper_bound(t.delta_uv@, 0);
        }
        if t.delta_e@.len() > 0 {
            greatest_is_an_upper_bound(t.delta_e@, 0);
        }
        if samples[i].delta_uv is Some {
            greatest_is_an_upper_bound(t.delta_uv@, scores_there(uv.take(i)) as int);
        }
        if samples[i].delta_e is Some {
            greatest_is_an_upper_bound(t.delta_e@, scores_there(de.take(i)) as int);
        }
    }
}

/// A summary takes every score of the samples, and there is none only where no
/// sample has a score.
pub proof fn summaries_hold_every_score(
    samples: Vec<AnalyzedSample>,
    anchor: Double,
    res: Option<TrialSummary>,
    i: int,
)
    requires
        call_ensures(summarize, (&samples, anchor), res),
        0 <= i < samples@.len(),
    ensures
        res matches Some(t) ==> takes_the_scores(t, samples@, i) && t.measured_white_y == anchor,
        res is None ==> samples@[i].delta_uv is None && samples@[i].delta_e is None,
        samples@[i].delta_uv is None && samples@[i].delta_e is None && samples@.len() == 1
            ==> res is None,
{
    lemma_takes_the_scores(samples@, anchor, res, i);
    if samples@.len() == 1 {
        let uv = uv_scores(samples@);
        let de = e_scores(samples@);
        assert(uv[0] == samples@[0].delta_uv && de[0] == samples@[0].delta_e);
        reveal_with_fuel(present, 2);
        assert(uv.drop_last().len() == 0 && de.drop_last().len() == 0);
    }
}

/// The summary of a scored trial takes every score of its samples, and gives the
/// brightest luminance that was measured.
pub proof fn trial_summaries_hold_every_score(
    trial: FormatTrial,
    fallback: Triple,
    expectations: Vec<Expectation>,
    res: AnalyzedTrial,
    i: int,
)
    requires
        is_expected(trial, expectations@),
        call_ensures(analyze_trial, (&trial, fallback, &expectations), res),
        res.ground_truth is Known,
        0 <= i < trial.samples@.len(),
    ensures
        res.summary matches Some(t) ==> {
            &&& takes_the_scores(t, res.samples@, i)
            &&& !t.measured_white_y.less(trial.samples@[i].measured.xyz.b)
            &&& t.measured_white_y.bits == 0 || exists|k: int|
                0 <= k < trial.samples@.len() && t.measured_white_y == (
                #[trigger] trial.samples@[k]).measured.xyz.b
        },
        res.summary is None ==> res.samples@[i].delta_uv is None && res.samples@[i].delta_e is None,
{
    lemma_takes_the_scores(res.samples@, peak(trial.samples@), res.summary, i);
    anchors_are_the_brightest(trial.samples@, i);
}

/// The interpretation of a capture is that of its trials, each in its place and by
/// itself: sample `k` of trial `i` is what was asked for and measured there.
pub proof fn captures_are_interpreted_trial_by_trial(
    capture: Capture,
    fallbacks: Vec<Triple>,
    expectations: Vec<Vec<Expectation>>,
    res: AnalyzedCapture,
    i: int,
    k: int,
)
    requires
        call_ensures(analyze, (&capture, &fallbacks, &expectations), res),
        0 <= i < capture.trials@.len(),
        0 <= k < capture.trials@[i].samples@.len(),
    ensures
        res.trials@.len() == capture.trials@.len(),
        res.trials@[i].samples@.len() == capture.trials@[i].samples@.len(),
        res.trials@[i].pixel_format@ == capture.trials@[i].pixel_format@,
        res.trials@[i].samples@[k].requested == capture.trials@[i].samples@[k].requested,
        res.trials@[i].samples@[k].measured_xyz == capture.trials@[i].samples@[k].measured.xyz,
        res.trials@[i].samples@[k].measured_xy == capture.trials@[i].samples@[k].measured.xy,
        res.trials@[i].ground_truth is Known ==> {
            &&& res.trials@[i].samples@[k].expected_xyz == Some(expectations@[i]@[k].expected_xyz)
            &&& res.trials@[i].samples@[k].expected_xy == expectations@[i]@[k].expected_xy
        },
{
    assert(interprets(
        res.trials@[i],
        capture.trials@[i],
        fallbacks@[i],
        expectations@[i]@,
    ));
}

} // verus!
