//! The capture schema: the record of one validation session against one output.
//!
//! A capture holds what the compositor advertised, what colour descriptions
//! were negotiated and whether it accepted them, and the samples that were
//! measured. It records facts and no interpretation: [`Sample::requested`] is
//! the code value written to the buffer, and nothing here says what should
//! have come out.
use vstd::prelude::*;

use crate::number::{Double, Pair, Triple};
use crate::text::same_text;

pub mod export;

verus! {

/// The schema version that captures are written with.
pub const SCHEMA_VERSION: u32 = 5;

/// A complete validation session against one output.
#[derive(Debug)]
pub struct Capture {
    /// Schema version this capture was written against.
    pub schema_version: u32,
    /// When the session ran, as an RFC 3339 timestamp.
    pub timestamp: String,
    /// What wrote this capture.
    pub tool: ToolInfo,
    /// The colorimeter that took the measurements.
    pub device: DeviceInfo,
    /// The output under test.
    pub output: OutputInfo,
    /// What the compositor advertised it can do.
    pub capabilities: Capabilities,
    /// What could be learnt about the compositor.
    pub compositor: CompositorInfo,
    /// How the run was conducted; absent in captures older than version 5.
    pub run: Option<RunInfo>,
    /// One entry per colour format under test.
    pub trials: Vec<FormatTrial>,
}

/// Identifies the program and the build that produced a capture.
#[derive(Debug)]
pub struct ToolInfo {
    pub name: String,
    pub version: String,
    /// Git revision of the build, if known.
    pub git_revision: Option<String>,
}

/// The colorimeter used, and which of its calibrations was applied.
#[derive(Debug)]
pub struct DeviceInfo {
    /// Human label, such as `Spyder 2024`.
    pub product: String,
    pub usb_pid: u16,
    pub serial: String,
    /// Hardware version, major and minor.
    pub hw_version: (u32, u32),
    /// Index of the calibration used.
    pub cal_index: u8,
    /// The conversion behind that index, where the device exposes it.
    pub calibration: Option<CalibrationInfo>,
}

/// How the device mapped raw channel readings to XYZ: each channel less its
/// floor, through a matrix, then a gain and an offset per row.
#[derive(Debug)]
pub struct CalibrationInfo {
    /// Per-channel floor subtracted from raw readings.
    pub black_floor: Vec<Double>,
    /// The rows of the matrix, one entry per channel.
    pub matrix: (Vec<Double>, Vec<Double>, Vec<Double>),
    /// Gain per row.
    pub gain: Triple,
    /// Offset per row, added last.
    pub offset: Triple,
}

/// The display the patches were shown on.
#[derive(Debug)]
pub struct OutputInfo {
    /// Connector name, such as `DP-4`.
    pub name: String,
    pub make: String,
    pub model: String,
    pub description: String,
    pub mode: Option<OutputMode>,
}

/// The output's current video mode.
#[derive(Clone, Copy, Debug, PartialEq, Eq)]
pub struct OutputMode {
    pub width: i32,
    pub height: i32,
    /// Refresh rate in millihertz.
    pub refresh_mhz: Option<i32>,
}

/// What the compositor advertised, by the protocol's names. All empty where the
/// compositor has no colour management.
#[derive(Debug)]
pub struct Capabilities {
    pub supported_transfer_functions: Vec<String>,
    pub supported_primaries: Vec<String>,
    pub supported_features: Vec<String>,
    pub supported_render_intents: Vec<String>,
}

impl Default for Capabilities {
    fn default() -> (res: Self)
        ensures
            res.supported_transfer_functions@.len() == 0,
            res.supported_primaries@.len() == 0,
            res.supported_features@.len() == 0,
            res.supported_render_intents@.len() == 0,
    {
        Capabilities {
            supported_transfer_functions: Vec::new(),
            supported_primaries: Vec::new(),
            supported_features: Vec::new(),
            supported_render_intents: Vec::new(),
        }
    }
}

/// What could be learnt about the compositor that served the session. Every
/// field is best effort.
#[derive(Debug)]
pub struct CompositorInfo {
    /// Name of the process at the other end of the Wayland socket.
    pub process: Option<String>,
    /// The session's `XDG_CURRENT_DESKTOP`.
    pub desktop: Option<String>,
    /// The globals that the compositor advertised.
    pub globals: Vec<GlobalInfo>,
}

impl Default for CompositorInfo {
    fn default() -> (res: Self)
        ensures
            res.process is None,
            res.desktop is None,
            res.globals@.len() == 0,
    {
        CompositorInfo { process: None, desktop: None, globals: Vec::new() }
    }
}

/// One advertised Wayland global.
#[derive(Debug)]
pub struct GlobalInfo {
    pub interface: String,
    pub version: u32,
}

/// Run-level configuration: with the per-sample contexts and the trials'
/// formats, the full recipe to reproduce the run.
#[derive(Debug)]
pub struct RunInfo {
    /// Countdown before the first measurement, in milliseconds.
    pub prep_ms: u64,
    /// Integration time of the fast tier in milliseconds, where the run used
    /// adaptive integration.
    pub fast_integration_ms: Option<u16>,
    /// How scatter samples were drawn, where they were asked for.
    pub scatter: Option<ScatterInfo>,
    /// How gamuts were probed, where they were.
    pub gamut_probe: Option<GamutProbeInfo>,
}

/// How a run's scatter samples were drawn.
#[derive(Clone, Copy, Debug, PartialEq, Eq, Structural)]
pub struct ScatterInfo {
    pub count: u32,
    pub seed: u64,
}

/// The measurement depth and refinement thresholds of a run's gamut probes.
#[derive(Clone, Copy, Debug, PartialEq, Eq, Structural)]
pub struct GamutProbeInfo {
    /// Repeated measurements per probe point.
    pub repeats: u32,
    /// Maximum subdivision depth per cube face.
    pub max_depth: u32,
    /// A patch is flat when its centre is within this of its corners' mean.
    pub flat_eps: Double,
    /// A patch has collapsed when its corners are within this of each other,
    pub fold_eps: Double,
    /// and is folded if it still spans this much code-value side.
    pub fold_min_side: Double,
}

/// One colour format under test.
#[derive(Debug)]
pub struct FormatTrial {
    /// The colorimetry that was asked for; none for an unmanaged trial.
    pub requested: Option<ColorDescription>,
    /// Name of the pixel format of the buffer.
    pub pixel_format: String,
    /// Whether the compositor accepted the description.
    pub outcome: Negotiation,
    /// The reproduced gamut, if it was probed.
    pub gamut: Option<MeasuredGamut>,
    /// Measurements taken while the format was active.
    pub samples: Vec<Sample>,
}

/// The probed gamut of one encoding.
#[derive(Debug)]
pub struct MeasuredGamut {
    /// Measured white, the reference of the vertices' CIELAB.
    pub white_xyz: Triple,
    /// Boundary vertices, without repetition; patches index into this.
    pub vertices: Vec<GamutVertex>,
    /// Leaf patches over the six cube faces.
    pub patches: Vec<GamutPatch>,
}

/// One measured boundary vertex.
#[derive(Clone, Copy, Debug, PartialEq, Eq, Structural)]
pub struct GamutVertex {
    /// Requested code value.
    pub code_value: Triple,
    /// Measured XYZ, with luminance in cd/m2.
    pub xyz: Triple,
    /// CIELAB relative to the measured white.
    pub lab: Triple,
    /// Whether the reading passed the confidence gate.
    pub trustworthy: bool,
}

/// One leaf patch of a cube face.
#[derive(Debug)]
pub struct GamutPatch {
    /// Face the patch lies on, such as `R=1`.
    pub face: String,
    /// The corners as vertex numbers, in cyclic order.
    pub corners: [usize; 4],
    /// Why subdivision stopped: `flat`, `folded`, `max_depth` or `low_trust`.
    pub status: String,
}

/// A parametric colour description, in nits.
#[derive(Debug)]
pub struct ColorDescription {
    /// Transfer function name.
    pub transfer_function: String,
    /// Render intent name.
    pub render_intent: String,
    /// Primaries name.
    pub primaries: String,
    /// Reference white luminance in cd/m2, if set.
    pub reference_white_nits: Option<Double>,
    /// Mastering-display metadata, if set.
    pub mastering: Option<Mastering>,
}

/// Mastering-display luminances, all in cd/m2.
#[derive(Clone, Copy, Debug, PartialEq, Eq, Structural)]
pub struct Mastering {
    pub min_luminance_nits: Double,
    pub max_luminance_nits: Double,
    pub max_cll_nits: Double,
    pub max_fall_nits: Double,
}

/// Outcome of negotiating a description with the compositor.
#[derive(Debug)]
pub enum Negotiation {
    /// The compositor produced an image description with this identity.
    Accepted { identity: u64 },
    /// The compositor rejected the description.
    Rejected { cause: String, message: String },
    /// No colour management was negotiated.
    Unmanaged,
}

/// How a sample was obtained.
#[derive(Clone, Copy, Debug, PartialEq, Eq, Structural)]
pub enum SampleSource {
    /// A point of the sweep, read once.
    Sweep,
    /// A boundary vertex of the gamut probe, averaged over repeats.
    GamutProbe,
}

impl Default for SampleSource {
    fn default() -> (res: Self)
        ensures
            res == SampleSource::Sweep,
    {
        SampleSource::Sweep
    }
}

impl SampleSource {
    /// Whether this is the default source, which a file leaves out.
    pub fn is_sweep(&self) -> (res: bool)
        ensures
            res == (*self == SampleSource::Sweep),
    {
        matches!(self, SampleSource::Sweep)
    }
}

/// The repeat count that a file leaves out.
pub fn one() -> (res: u32)
    ensures
        res == 1,
{
    1
}

/// Whether a repeat count is the one that a file leaves out.
pub fn is_one(n: &u32) -> (res: bool)
    ensures
        res == (*n == 1),
{
    *n == 1
}

/// The render intent that a file leaves out.
pub fn perceptual() -> (res: String)
    ensures
        res@ == "perceptual"@,
{
    "perceptual".to_owned()
}

/// Whether a render intent is the one that a file leaves out.
pub fn is_perceptual(s: &str) -> (res: bool)
    ensures
        res == (s@ == "perceptual"@),
{
    same_text(s, "perceptual")
}

/// One measured patch: what was sent, what came back, under what conditions.
#[derive(Debug)]
pub struct Sample {
    /// The code value written to the buffer, in the format's own encoding.
    pub requested: Triple,
    pub measured: Measured,
    pub context: SampleContext,
    pub source: SampleSource,
    /// Number of readings averaged into `measured`.
    pub repeats: u32,
    /// Which adaptive tier produced the sample, in adaptive runs.
    pub adaptive_tier: Option<AdaptiveTier>,
    /// Milliseconds since the run's measurement phase began.
    pub elapsed_ms: Option<u64>,
}

/// Which tier of an adaptive measurement produced a sample.
#[derive(Clone, Copy, Debug, PartialEq, Eq, Structural)]
pub enum AdaptiveTier {
    /// The fast reading passed the trust check.
    Fast,
    /// The fast reading was untrustworthy; a full one followed.
    EscalatedFull,
    /// There is no fast tier; a single full reading.
    SingleFull,
}

/// A colorimeter reading.
#[derive(Debug)]
pub struct Measured {
    /// Raw channel counts; empty where the device exposes none.
    pub raw: Vec<u16>,
    /// CIE 1931 XYZ, with luminance in cd/m2.
    pub xyz: Triple,
    /// CIE 1931 chromaticity; none for black.
    pub xy: Option<Pair>,
}

/// The conditions a sample was measured under.
#[derive(Clone, Copy, Debug, PartialEq, Eq)]
pub struct SampleContext {
    /// Area fraction of the centred window; one for a fullscreen patch.
    pub window_fraction: Double,
    /// Surround code value of a windowed patch; none for black.
    pub border: Option<Triple>,
    /// Milliseconds waited after committing the patch.
    pub settle_ms: u64,
}

} // verus!
