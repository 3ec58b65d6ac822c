//! A capture session: what to do next, what to report, and what to record.
//!
//! The session runs each format under test in order. For a format it opens a
//! surface, optionally probes the gamut, then sweeps the code values. It holds
//! everything that ends up in the capture; the device and the display are the
//! caller's.
use vstd::prelude::*;

use crate::capture::{
    AdaptiveTier, Capabilities, Capture, ColorDescription, CompositorInfo, DeviceInfo, FormatTrial,
    GamutProbeInfo, GlobalInfo, MeasuredGamut, Measured, Negotiation, OutputInfo, OutputMode,
    RunInfo, Sample, SampleContext, SampleSource, ScatterInfo, ToolInfo, SCHEMA_VERSION,
};
use crate::display::color_mgmt::{ColorCapabilities, DescriptionState};
use crate::display::format::BufferFormat;
use crate::display::mode::BufferPolicy;
use crate::display::surface::OutputDescription;
use crate::driver::colorimeter;
use crate::gather::format::{
    buffer_text, spec_recorded, FormatName, FormatSpec, MasteringFigures,
};
use crate::gather::gamut::{
    captured_patch, captured_vertex, code_of, every_answer_makes_progress, grid_code,
    lemma_grid_code, lemma_vertices_grow, refine_gamut, status_count, PatchStatus, RefineParams,
    RefineState, Refinement, Step, VertexReading, DEPTH_LIMIT,
};
use crate::gather::sequence::{
    candidate, candidates, completes, kept, scatter, scatter_accepted,
    scatter_points_are_fractions,
};
use crate::number::{CodeValue, Double, Pair, Triple};
use crate::quotient::{code_is_unique, code_numbers, is_code};
use crate::text::same_text;

verus! {

// ---------------------------------------------------------------------------
// Configuration
// ---------------------------------------------------------------------------

/// How many scatter points to draw, and the seed to draw them from.
#[derive(Clone, Copy, Debug, PartialEq, Eq, Structural)]
pub struct ScatterRequest {
    pub count: usize,
    pub seed: u64,
}

/// How gamuts are probed.
#[derive(Clone, Copy, Debug, PartialEq, Eq)]
pub struct GamutProbeOpts {
    /// Repeated measurements per probe point.
    pub repeats: usize,
    /// Integration time of the fast tier in milliseconds, if there is one.
    pub fast_integration_ms: Option<u16>,
    pub refine: RefineParams,
    /// A patch is flat when its centre is within this of its corners' mean.
    pub flat_eps: Double,
    /// A patch has collapsed when its corners are within this of each other.
    pub fold_eps: Double,
    /// The least side at which a collapsed patch is a fold.
    pub fold_min_side: Double,
}

/// A format under test, with its mastering luminances as numbers.
#[derive(Debug)]
pub struct TestFormat {
    pub spec: FormatSpec,
    pub figures: MasteringFigures,
}

/// Everything a capture session needs.
#[derive(Debug)]
pub struct CaptureConfig {
    /// Connector name of the output under test.
    pub output: String,
    /// Index of the calibration to use.
    pub cal_index: u8,
    /// Milliseconds to wait after showing a patch before measuring it.
    pub settle_ms: u64,
    /// Countdown before the first measurement, in milliseconds.
    pub prep_ms: u64,
    /// Area fraction of the centred window.
    pub window_fraction: Double,
    /// Surround code value; black if there is none.
    pub border: Option<Triple>,
    /// The formats to test, in order.
    pub formats: Vec<TestFormat>,
    /// The code values that every format steps through.
    pub sequence: Vec<CodeValue>,
    /// Scatter points to add to the sequence.
    pub scatter: Option<ScatterRequest>,
    /// Whether and how to probe each format's gamut.
    pub gamut: Option<GamutProbeOpts>,
}

impl CaptureConfig {
    /// The refinement depth is one that the grid of code values can hold, and
    /// the sequence is made of fractions.
    pub open spec fn wf(self) -> bool {
        &&& self.gamut matches Some(opts) ==> opts.refine.max_depth <= DEPTH_LIMIT
        &&& are_fractions(self.sequence@)
    }
}

/// Code values that are made of fractions.
pub open spec fn are_fractions(codes: Seq<CodeValue>) -> bool {
    forall|i: int| 0 <= i < codes.len() ==> (#[trigger] codes[i]).wf()
}

// ---------------------------------------------------------------------------
// Events and errors
// ---------------------------------------------------------------------------

/// Progress of a session.
#[allow(inconsistent_fields)]
#[derive(Debug)]
pub enum GatherEvent {
    /// The colorimeter is ready.
    DeviceReady { product: String, serial: String, hw_version: (u32, u32) },
    /// Seconds left to place the instrument.
    Countdown { remaining: u64 },
    /// A format begins.
    FormatStart {
        index: usize,
        total: usize,
        token: String,
        pixel_format: String,
        requested: Option<ColorDescription>,
    },
    /// The compositor's answer to the format's description.
    Negotiation(Negotiation),
    /// A point of the sweep was measured.
    Sample { format_index: usize, index: usize, total: usize, sample: Sample },
    /// A vertex of the gamut probe was measured.
    ProbeSample { format_index: usize, sample: Sample },
    /// The gamut probe is complete.
    GamutProbed { index: usize, vertices: usize, folds: usize },
    /// A format ends.
    FormatDone { index: usize, samples: usize },
}

/// Why a session cannot go on.
#[derive(Debug)]
pub enum GatherError {
    Device(colorimeter::Error),
    /// The display's error, as a message.
    Display(String),
    FormatRejected { cause: String, message: String },
}

/// Copies a sample.
pub fn copy_sample(s: &Sample) -> (res: Sample)
    ensures
        same_sample(res, *s),
{
    Sample {
        requested: s.requested,
        measured: Measured { raw: s.measured.raw.clone(), xyz: s.measured.xyz, xy: s.measured.xy },
        context: s.context,
        source: s.source,
        repeats: s.repeats,
        adaptive_tier: s.adaptive_tier,
        elapsed_ms: s.elapsed_ms,
    }
}

/// Samples that hold the same.
pub open spec fn same_sample(a: Sample, b: Sample) -> bool {
    &&& a.requested == b.requested
    &&& a.measured.raw@ == b.measured.raw@
    &&& a.measured.xyz == b.measured.xyz
    &&& a.measured.xy == b.measured.xy
    &&& a.context == b.context
    &&& a.source == b.source
    &&& a.repeats == b.repeats
    &&& a.adaptive_tier == b.adaptive_tier
    &&& a.elapsed_ms == b.elapsed_ms
}

/// Outcomes that say the same.
pub open spec fn same_outcome(a: Negotiation, b: Negotiation) -> bool {
    match (a, b) {
        (Negotiation::Accepted { identity: x }, Negotiation::Accepted { identity: y }) => x == y,
        (
            Negotiation::Rejected { cause: c, message: m },
            Negotiation::Rejected { cause: d, message: n },
        ) => c@ == d@ && m@ == n@,
        (Negotiation::Unmanaged, Negotiation::Unmanaged) => true,
        _ => false,
    }
}

/// Copies an outcome.
pub fn copy_outcome(o: &Negotiation) -> (res: Negotiation)
    ensures
        same_outcome(res, *o),
{
    match o {
        Negotiation::Accepted { identity } => Negotiation::Accepted { identity: *identity },
        Negotiation::Rejected { cause, message } => Negotiation::Rejected {
            cause: cause.clone(),
            message: message.clone(),
        },
        Negotiation::Unmanaged => Negotiation::Unmanaged,
    }
}

// ---------------------------------------------------------------------------
// Opening a format
// ---------------------------------------------------------------------------

/// How an attempt to open a surface ended.
#[allow(inconsistent_fields)]
#[derive(Debug)]
pub enum Attempt {
    /// The surface is open; `state` is that of its description, if it has one.
    Opened { state: Option<DescriptionState>, buffer: BufferFormat },
    /// A description was asked for and there is no colour manager.
    NoColorManager,
    /// The compositor refused the description.
    DescriptionFailed { cause: String, message: String },
    /// Any other error, by its message.
    Failed { message: String },
}

/// What an attempt leads to.
#[allow(inconsistent_fields)]
#[derive(Debug)]
pub enum Opening {
    /// Patches can be shown in a buffer of this format.
    Ready { outcome: Negotiation, buffer: BufferFormat },
    /// The format is refused: nothing is shown.
    Refused { outcome: Negotiation },
    /// Try again without a description.
    Retry,
    /// The session ends with this message.
    Fatal { message: String },
}

/// What an attempt with a description, or without one after there was no
/// colour manager, leads to.
pub open spec fn opening_of(managed: bool, attempt: Attempt, res: Opening) -> bool {
    match attempt {
        Attempt::Opened { state, buffer } => res matches Opening::Ready { outcome, buffer: b } && b
            == buffer && if managed {
            match state {
                Some(DescriptionState::Ready { identity }) => outcome == (Negotiation::Accepted {
                    identity,
                }),
                Some(DescriptionState::Failed { cause, message }) => same_outcome(
                    outcome,
                    Negotiation::Rejected { cause, message },
                ),
                _ => outcome is Unmanaged,
            }
        } else {
            outcome is Unmanaged
        },
        Attempt::DescriptionFailed { cause, message } => if managed {
            res matches Opening::Refused { outcome } && same_outcome(
                outcome,
                Negotiation::Rejected { cause, message },
            )
        } else {
            refused_unmanaged(res, refusal_text(cause@, message@))
        },
        Attempt::NoColorManager => if managed {
            res is Retry
        } else {
            refused_unmanaged(res, no_manager_text())
        },
        Attempt::Failed { message } => if managed {
            res matches Opening::Fatal { message: m } && m@ == message@
        } else {
            refused_unmanaged(res, message@)
        },
    }
}

/// What the lack of a colour manager is called.
pub open spec fn no_manager_text() -> Seq<char> {
    "compositor doesn't advertise wp_color_manager_v1 (required for a managed format)"@
}

/// What the refusal of a description is called.
pub open spec fn refusal_text(cause: Seq<char>, message: Seq<char>) -> Seq<char> {
    "compositor rejected our image description: "@ + cause + ": "@ + message
}

/// The refusal of a format that could not even be shown without a description.
pub open spec fn refused_unmanaged(res: Opening, message: Seq<char>) -> bool {
    res matches Opening::Refused { outcome: Negotiation::Rejected { cause, message: m } } && cause@
        == "unmanaged_fallback_failed"@ && m@ == message
}

/// Decides what an attempt leads to. A refusal is recorded and nothing shown; a
/// compositor without colour management still gets a plain buffer.
pub fn judge_attempt(managed: bool, attempt: Attempt) -> (res: Opening)
    ensures
        opening_of(managed, attempt, res),
{
    if managed {
        match attempt {
            Attempt::Opened { state, buffer } => {
                let outcome = match state {
                    None => Negotiation::Unmanaged,
                    Some(DescriptionState::Ready { identity }) => Negotiation::Accepted { identity },
                    Some(DescriptionState::Failed { cause, message }) => Negotiation::Rejected {
                        cause,
                        message,
                    },
                    Some(DescriptionState::Pending) => Negotiation::Unmanaged,
                };
                Opening::Ready { outcome, buffer }
            },
            Attempt::DescriptionFailed { cause, message } => Opening::Refused {
                outcome: Negotiation::Rejected { cause, message },
            },
            Attempt::NoColorManager => Opening::Retry,
            Attempt::Failed { message } => Opening::Fatal { message },
        }
    } else {
        let message: String = match attempt {
            Attempt::Opened { buffer, .. } => {
                return Opening::Ready { outcome: Negotiation::Unmanaged, buffer };
            },
            Attempt::DescriptionFailed { cause, message } => {
                let mut text = "compositor rejected our image description: ".to_owned();
                text.append(cause.as_str());
                text.append(": ");
                text.append(message.as_str());
                text
            },
            Attempt::NoColorManager =>
                "compositor doesn't advertise wp_color_manager_v1 (required for a managed format)".to_owned(),
            Attempt::Failed { message } => message,
        };
        Opening::Refused {
            outcome: Negotiation::Rejected {
                cause: "unmanaged_fallback_failed".to_owned(),
                message,
            },
        }
    }
}

/// A format that was refused cannot be probed on its own.
pub fn rejection(outcome: &Negotiation) -> (res: GatherError)
    ensures
        match *outcome {
            Negotiation::Rejected { cause, message } => res matches GatherError::FormatRejected {
                cause: c,
                message: m,
            } && c@ == cause@ && m@ == message@,
            _ => res matches GatherError::FormatRejected { cause: c, message: m } && c@
                == "no_surface"@ && m@ == "format produced no surface"@,
        },
{
    match outcome {
        Negotiation::Rejected { cause, message } => GatherError::FormatRejected {
            cause: cause.clone(),
            message: message.clone(),
        },
        _ => GatherError::FormatRejected {
            cause: "no_surface".to_owned(),
            message: "format produced no surface".to_owned(),
        },
    }
}

// ---------------------------------------------------------------------------
// The session
// ---------------------------------------------------------------------------

/// A reading of the patch that the session asked to show.
#[derive(Debug)]
pub struct Reading {
    /// Raw counts; empty where the device has none.
    pub raw: Vec<u16>,
    pub xyz: Triple,
    /// Chromaticity; none for black.
    pub xy: Option<Pair>,
    /// Tier of an adaptive measurement.
    pub tier: Option<AdaptiveTier>,
    /// Milliseconds since the measurements began.
    pub elapsed_ms: Option<u64>,
}

/// Where a session stands.
#[derive(Clone, Copy, Debug, PartialEq, Eq, Structural)]
pub enum Phase {
    /// Counting down.
    Counting { remaining: u64 },
    /// About to begin a format.
    Format,
    /// Opening a surface, with the format's description or without one.
    Opening { managed: bool },
    /// About to probe the gamut.
    Probe,
    /// Probing the gamut.
    Refining,
    /// About to lay out the sweep.
    Sweep,
    /// About to measure a point of the sweep.
    Sweeping { at: usize },
    /// About to end a format; a surface that is open is made dark.
    Closing { darken: bool },
    /// All done.
    Finished,
}

/// What the caller has to do.
#[allow(inconsistent_fields)]
#[derive(Clone, Copy, Debug, PartialEq, Eq, Structural)]
pub enum Task {
    /// Ask whether to stop, and if not wait a second; then
    /// [`Session::counted`].
    Count { remaining: u64 },
    /// Ask whether to stop; then [`Session::begin_format`].
    BeginFormat { index: usize },
    /// Open a surface for a format; then [`Session::opened`].
    Open { index: usize, managed: bool },
    /// Ask whether to stop; then [`Session::begin_probe`].
    BeginProbe,
    /// Do what the refinement asks for; then [`Session::vertex_measured`],
    /// [`Session::collapse_judged`], [`Session::flat_judged`] or, when it is
    /// done, [`Session::finish_probe`].
    Refine(Step),
    /// Choose the scatter points; then [`Session::plan_sweep`].
    PlanSweep,
    /// Ask whether to stop, and if not show and read a patch; then
    /// [`Session::swept`].
    Show { index: usize, total: usize, code_value: CodeValue },
    /// Make the surface dark, if asked to; then [`Session::close`].
    Close { darken: bool },
    /// Write the capture.
    Finish,
}

/// A capture session.
#[derive(Debug)]
pub struct Session {
    pub config: CaptureConfig,
    pub phase: Phase,
    /// The format under way, or the next one.
    pub format: usize,
    /// The outcome of its negotiation.
    pub outcome: Negotiation,
    /// The buffer that its patches are shown in.
    pub buffer: Option<BufferFormat>,
    /// The refinement of its gamut.
    pub probe: Option<Refinement>,
    /// The colours of the refinement's vertices.
    pub vertex_readings: Vec<VertexReading>,
    /// Its gamut, once probed.
    pub gamut: Option<MeasuredGamut>,
    /// Its sweep.
    pub sweep: Vec<CodeValue>,
    /// Its samples so far.
    pub samples: Vec<Sample>,
    /// The trials of the formats before it.
    pub trials: Vec<FormatTrial>,
    /// The session was ended before its last format.
    pub stopped: bool,
}

/// The phase in which the next format begins, if there is one.
pub open spec fn next_format(config: CaptureConfig, format: int) -> Phase {
    if format < config.formats@.len() {
        Phase::Format
    } else {
        Phase::Finished
    }
}

/// The phase in which point `at` of a sweep is measured, if there is one.
pub open spec fn next_point(sweep: Seq<CodeValue>, at: int) -> Phase {
    if at < sweep.len() {
        Phase::Sweeping { at: at as usize }
    } else {
        Phase::Closing { darken: true }
    }
}

/// The sample that a reading of a code value gives.
pub open spec fn sample_of(
    s: Sample,
    config: CaptureConfig,
    code: CodeValue,
    r: Reading,
    source: SampleSource,
    repeats: u32,
) -> bool {
    &&& is_code(s.requested, code)
    &&& s.measured.raw@ == r.raw@
    &&& s.measured.xyz == r.xyz
    &&& s.measured.xy == r.xy
    &&& s.context == (SampleContext {
        window_fraction: config.window_fraction,
        border: config.border,
        settle_ms: config.settle_ms,
    })
    &&& s.source == source
    &&& s.repeats == repeats
    &&& s.adaptive_tier == r.tier
    &&& s.elapsed_ms == r.elapsed_ms
}

/// The sample of a vertex of the gamut: it carries the vertex's code value and
/// its colour.
pub open spec fn samples_vertex(s: Sample, code_value: Triple, xyz: Triple) -> bool {
    &&& s.source == SampleSource::GamutProbe
    &&& s.requested == code_value
    &&& s.measured.xyz == xyz
}

/// The sample of a point of a sweep: it carries the point's code value.
pub open spec fn samples_point(s: Sample, code: CodeValue) -> bool {
    &&& s.source == SampleSource::Sweep
    &&& is_code(s.requested, code)
}

/// Each vertex of a gamut has its sample, in the same order, before any other.
pub open spec fn vertices_sampled(gamut: Option<MeasuredGamut>, samples: Seq<Sample>) -> bool {
    gamut matches Some(g) ==> {
        &&& g.vertices@.len() <= samples.len()
        &&& forall|k: int|
            0 <= k < g.vertices@.len() ==> samples_vertex(
                #[trigger] samples[k],
                g.vertices@[k].code_value,
                g.vertices@[k].xyz,
            )
    }
}

/// Each sample after the first `n` is that of a point of the sweep, in order.
pub open spec fn points_sampled(sweep: Seq<CodeValue>, samples: Seq<Sample>, n: int) -> bool {
    forall|k: int|
        n <= k < samples.len() ==> samples_point(#[trigger] samples[k], sweep[k - n])
}

/// The report that a format begins.
pub open spec fn starts_format(e: GatherEvent, config: CaptureConfig, i: int) -> bool {
    e matches GatherEvent::FormatStart { index, total, token, pixel_format, requested } && {
        let f = config.formats@[i];
        &&& index == i
        &&& total == config.formats@.len()
        &&& token@ == f.spec.token@
        &&& pixel_format@ == buffer_text(f.spec.buffer)
        &&& spec_recorded(f.spec.name, f.figures, requested)
    }
}

/// The name of the buffer that a trial records: the one that was used, or the
/// label of the spec where none was.
pub open spec fn trial_buffer(buffer: Option<BufferFormat>, spec: FormatSpec) -> Seq<char> {
    match buffer {
        Some(f) => f.name_text(),
        None => buffer_text(spec.buffer),
    }
}

impl Session {
    /// The trials are those of the formats before the one under way, and what
    /// the phase speaks of is there.
    pub open spec fn wf(self) -> bool {
        &&& self.config.wf()
        &&& self.format <= self.config.formats@.len()
        &&& self.trials@.len() == self.format
        &&& match self.phase {
            Phase::Counting { remaining } => remaining >= 1,
            Phase::Finished => self.stopped || self.format == self.config.formats@.len(),
            _ => self.format < self.config.formats@.len(),
        }
        &&& self.phase == Phase::Probe ==> self.config.gamut is Some
        &&& self.phase == Phase::Refining ==> (self.probe matches Some(p) && p.wf()
            && self.vertex_readings@.len() == p@.mesh.vertices.len() && self.config.gamut is Some
            && p@.params == self.config.gamut->0.refine)
        &&& self.phase matches Phase::Sweeping { at } ==> at < self.sweep@.len() && are_fractions(
            self.sweep@,
        )
        &&& self.counts_samples()
        &&& self.samples_match()
        &&& forall|i: int|
            0 <= i < self.trials@.len() ==> {
                let t = #[trigger] self.trials@[i];
                vertices_sampled(t.gamut, t.samples@)
            }
    }

    /// Every sample carries the code value that was asked for: that of its vertex
    /// while the gamut is probed and after, and that of its point in the sweep.
    pub open spec fn samples_match(self) -> bool {
        match self.phase {
            Phase::Refining => forall|k: int|
                0 <= k < self.samples@.len() ==> {
                    &&& samples_vertex(
                        #[trigger] self.samples@[k],
                        self.vertex_readings@[k].code_value,
                        self.vertex_readings@[k].xyz,
                    )
                    &&& is_code(
                        self.samples@[k].requested,
                        grid_code(
                            self.probe->0@.mesh.vertices[k].code_value,
                            self.probe->0@.params.max_depth,
                        ),
                    )
                },
            Phase::Sweep => vertices_sampled(self.gamut, self.samples@),
            Phase::Sweeping { .. } | Phase::Closing { .. } => {
                &&& vertices_sampled(self.gamut, self.samples@)
                &&& points_sampled(self.sweep@, self.samples@, self.probe_samples() as int)
            },
            _ => true,
        }
    }

    /// The code value that the session asks to show, if it asks for one.
    pub open spec fn asked(self) -> Option<CodeValue> {
        match self.task() {
            Task::Show { code_value, .. } => Some(code_value),
            Task::Refine(Step::Measure { code_value }) => Some(
                grid_code(code_value, self.probe->0@.params.max_depth),
            ),
            _ => None,
        }
    }

    /// How many samples the gamut probe gave.
    pub open spec fn probe_samples(self) -> nat {
        match self.gamut {
            Some(g) => g.vertices@.len(),
            None => 0,
        }
    }

    /// Every measurement is recorded: there is one sample for each vertex of
    /// the gamut and one for each point of the sweep that was reached, and none
    /// before a surface is open.
    pub open spec fn counts_samples(self) -> bool {
        let n = self.samples@.len();
        match self.phase {
            Phase::Opening { .. } | Phase::Closing { darken: false } => n == 0 && self.gamut is None
                && self.buffer is None,
            Phase::Probe => n == 0 && self.gamut is None,
            Phase::Refining => n == self.vertex_readings@.len() && self.gamut is None,
            Phase::Sweep => n == self.probe_samples(),
            Phase::Sweeping { at } => n == self.probe_samples() + at,
            Phase::Closing { darken: true } => self.probe_samples() <= n <= self.probe_samples()
                + self.sweep@.len(),
            _ => true,
        }
    }

    /// How many formats are left, with the one under way.
    pub open spec fn formats_left(self) -> int {
        if self.phase == Phase::Finished {
            0
        } else {
            self.config.formats@.len() - self.format + 1
        }
    }

    /// How much of the format under way is left.
    pub open spec fn stages_left(self) -> int {
        match self.phase {
            Phase::Counting { .. } => 9,
            Phase::Format => 8,
            Phase::Opening { managed: true } => 7,
            Phase::Opening { managed: false } => 6,
            Phase::Probe => 5,
            Phase::Refining => 4,
            Phase::Sweep => 3,
            Phase::Sweeping { .. } => 2,
            Phase::Closing { .. } => 1,
            Phase::Finished => 0,
        }
    }

    /// How much of the phase is left.
    pub open spec fn steps_left(self) -> int {
        match self.phase {
            Phase::Counting { remaining } => remaining as int,
            Phase::Refining => self.probe->0@.effort() as int,
            Phase::Sweeping { at } => self.sweep@.len() - at,
            _ => 0,
        }
    }

    /// The session is nearer to its end than it was: fewer formats, stages or
    /// steps are left, compared in this order.
    pub open spec fn nearer_end(self, before: Session) -> bool {
        ||| self.formats_left() < before.formats_left()
        ||| self.formats_left() == before.formats_left() && self.stages_left()
            < before.stages_left()
        ||| self.formats_left() == before.formats_left() && self.stages_left()
            == before.stages_left() && 0 <= self.steps_left() < before.steps_left()
    }

    /// What the caller has to do.
    pub open spec fn task(self) -> Task {
        match self.phase {
            Phase::Counting { remaining } => Task::Count { remaining },
            Phase::Format => Task::BeginFormat { index: self.format },
            Phase::Opening { managed } => Task::Open { index: self.format, managed },
            Phase::Probe => Task::BeginProbe,
            Phase::Refining => Task::Refine(self.probe->0@.step()),
            Phase::Sweep => Task::PlanSweep,
            Phase::Sweeping { at } => Task::Show {
                index: at,
                total: self.sweep@.len() as usize,
                code_value: self.sweep@[at as int],
            },
            Phase::Closing { darken } => Task::Close { darken },
            Phase::Finished => Task::Finish,
        }
    }

    /// What the caller has to do.
    pub fn next(&self) -> (res: Task)
        requires
            self.wf(),
        ensures
            res == self.task(),
    {
        match self.phase {
            Phase::Counting { remaining } => Task::Count { remaining },
            Phase::Format => Task::BeginFormat { index: self.format },
            Phase::Opening { managed } => Task::Open { index: self.format, managed },
            Phase::Probe => Task::BeginProbe,
            Phase::Refining => match &self.probe {
                Some(p) => Task::Refine(p.next()),
                None => Task::Refine(Step::Done),
            },
            Phase::Sweep => Task::PlanSweep,
            Phase::Sweeping { at } => Task::Show {
                index: at,
                total: self.sweep.len(),
                code_value: self.sweep[at],
            },
            Phase::Closing { darken } => Task::Close { darken },
            Phase::Finished => Task::Finish,
        }
    }

    /// The numbers of the code value that the session asks to show, if it asks for
    /// one.
    pub fn to_show(&self) -> (res: Option<Triple>)
        requires
            self.wf(),
        ensures
            res is Some == self.asked() is Some,
            res matches Some(t) ==> is_code(t, self.asked()->0),
    {
        match self.next() {
            Task::Show { code_value, .. } => Some(code_numbers(&code_value)),
            Task::Refine(Step::Measure { code_value }) => match &self.config.gamut {
                Some(opts) => {
                    let code = code_of(code_value, opts.refine.max_depth);
                    Some(code_numbers(&code))
                },
                None => None,
            },
            _ => None,
        }
    }

    /// The rest of the session is as it was: its configuration, and the trials
    /// of earlier formats.
    pub open spec fn continues(self, before: Session) -> bool {
        &&& self.config == before.config
        &&& self.format == before.format
        &&& self.trials == before.trials
        &&& self.stopped ==> before.stopped || self.phase == Phase::Finished
    }

    /// What was recorded of the format under way is as it was.
    pub open spec fn keeps_records(self, before: Session) -> bool {
        &&& self.outcome == before.outcome
        &&& self.buffer == before.buffer
        &&& self.gamut == before.gamut
        &&& self.samples == before.samples
    }

    /// Starts a session; the first second of a countdown is reported at once.
    pub fn start(config: CaptureConfig) -> (res: (Session, Option<GatherEvent>))
        requires
            config.wf(),
        ensures
            res.0.wf(),
            res.0.config == config,
            res.0.format == 0,
            res.0.trials@.len() == 0,
            !res.0.stopped,
            config.prep_ms / 1000 >= 1 ==> res.0.phase == (Phase::Counting {
                remaining: config.prep_ms / 1000,
            }) && res.1 == Some(GatherEvent::Countdown { remaining: config.prep_ms / 1000 }),
            config.prep_ms / 1000 == 0 ==> res.0.phase == next_format(config, 0) && res.1 is None,
    {
        let seconds: u64 = config.prep_ms / 1000;
        let any: bool = config.formats.len() > 0;
        let mut s = Session {
            config,
            phase: Phase::Finished,
            format: 0,
            outcome: Negotiation::Unmanaged,
            buffer: None,
            probe: None,
            vertex_readings: Vec::new(),
            gamut: None,
            sweep: Vec::new(),
            samples: Vec::new(),
            trials: Vec::new(),
            stopped: false,
        };
        if seconds >= 1 {
            s.phase = Phase::Counting { remaining: seconds };
            (s, Some(GatherEvent::Countdown { remaining: seconds }))
        } else {
            if any {
                s.phase = Phase::Format;
            }
            (s, None)
        }
    }

    /// A second of the countdown has passed, or the countdown was cut short.
    pub fn counted(&mut self, cancelled: bool) -> (res: Option<GatherEvent>)
        requires
            old(self).wf(),
            old(self).phase is Counting,
        ensures
            final(self).wf(),
            final(self).continues(*old(self)),
            final(self).nearer_end(*old(self)),
            ({
                let remaining = old(self).phase->remaining;
                if cancelled || remaining == 1 {
                    res is None && final(self).phase == next_format(
                        final(self).config,
                        final(self).format as int,
                    )
                } else {
                    &&& final(self).phase == (Phase::Counting { remaining: (remaining - 1) as u64 })
                    &&& res == Some(GatherEvent::Countdown { remaining: (remaining - 1) as u64 })
                }
            }),
    {
        if let Phase::Counting { remaining } = self.phase {
            if !cancelled && remaining > 1 {
                self.phase = Phase::Counting { remaining: remaining - 1 };
                return Some(GatherEvent::Countdown { remaining: remaining - 1 });
            }
        }
        self.phase = if self.format < self.config.formats.len() {
            Phase::Format
        } else {
            Phase::Finished
        };
        None
    }

    /// Begins a format, unless the session was cancelled, which ends it.
    pub fn begin_format(&mut self, cancelled: bool) -> (res: Option<GatherEvent>)
        requires
            old(self).wf(),
            old(self).phase == Phase::Format,
        ensures
            final(self).wf(),
            final(self).continues(*old(self)),
            final(self).nearer_end(*old(self)),
            cancelled ==> res is None && final(self).phase == Phase::Finished && final(self).stopped,
            !cancelled ==> {
                &&& final(self).stopped == old(self).stopped
                &&& final(self).phase == (Phase::Opening { managed: true })
                &&& (res matches Some(e) && starts_format(
                    e,
                    final(self).config,
                    final(self).format as int,
                ))
                &&& final(self).samples@.len() == 0
                &&& final(self).gamut is None
                &&& final(self).buffer is None
            },
    {
        if cancelled {
            self.phase = Phase::Finished;
            self.stopped = true;
            return None;
        }
        self.phase = Phase::Opening { managed: true };
        self.buffer = None;
        self.probe = None;
        self.vertex_readings = Vec::new();
        self.gamut = None;
        self.sweep = Vec::new();
        self.samples = Vec::new();
        let f = &self.config.formats[self.format];
        Some(
            GatherEvent::FormatStart {
                index: self.format,
                total: self.config.formats.len(),
                token: f.spec.token().to_owned(),
                pixel_format: f.spec.buffer_label().to_owned(),
                requested: f.spec.color_description(&f.figures),
            },
        )
    }

    /// Takes note of how an attempt to open a surface ended.
    pub fn opened(&mut self, attempt: Attempt) -> (res: Result<Option<GatherEvent>, GatherError>)
        requires
            old(self).wf(),
            old(self).phase is Opening,
        ensures
            final(self).wf(),
            final(self).continues(*old(self)),
            final(self).nearer_end(*old(self)),
            final(self).samples == old(self).samples,
            final(self).gamut == old(self).gamut,
            exists|o: Opening|
                {
                    &&& #[trigger] opening_of(old(self).phase->managed, attempt, o)
                    &&& match o {
                        Opening::Ready { outcome, buffer } => {
                            &&& final(self).phase == if final(self).config.gamut is Some {
                                Phase::Probe
                            } else {
                                Phase::Sweep
                            }
                            &&& final(self).outcome == outcome
                            &&& final(self).buffer == Some(buffer)
                            &&& (res matches Ok(Some(GatherEvent::Negotiation(n))) && same_outcome(
                                n,
                                outcome,
                            ))
                        },
                        Opening::Refused { outcome } => {
                            &&& final(self).phase == (Phase::Closing { darken: false })
                            &&& final(self).outcome == outcome
                            &&& final(self).buffer == old(self).buffer
                            &&& (res matches Ok(Some(GatherEvent::Negotiation(n))) && same_outcome(
                                n,
                                outcome,
                            ))
                        },
                        Opening::Retry => {
                            &&& final(self).phase == (Phase::Opening { managed: false })
                            &&& final(self).buffer == old(self).buffer
                            &&& (res matches Ok(e) && e is None)
                        },
                        Opening::Fatal { message } => {
                            &&& final(self).phase == Phase::Finished
                            &&& (res matches Err(GatherError::Display(m)) && m@ == message@)
                        },
                    }
                },
    {
        let managed: bool = match self.phase {
            Phase::Opening { managed } => managed,
            _ => true,
        };
        let o = judge_attempt(managed, attempt);
        assert(opening_of(old(self).phase->managed, attempt, o));
        match o {
            Opening::Ready { outcome, buffer } => {
                let e = copy_outcome(&outcome);
                self.phase = if self.config.gamut.is_some() {
                    Phase::Probe
                } else {
                    Phase::Sweep
                };
                self.outcome = outcome;
                self.buffer = Some(buffer);
                Ok(Some(GatherEvent::Negotiation(e)))
            },
            Opening::Refused { outcome } => {
                let e = copy_outcome(&outcome);
                self.phase = Phase::Closing { darken: false };
                self.outcome = outcome;
                Ok(Some(GatherEvent::Negotiation(e)))
            },
            Opening::Retry => {
                self.phase = Phase::Opening { managed: false };
                Ok(None)
            },
            Opening::Fatal { message } => {
                self.phase = Phase::Finished;
                self.stopped = true;
                Err(GatherError::Display(message))
            },
        }
    }

    /// Begins the gamut probe, unless it is cancelled.
    pub fn begin_probe(&mut self, cancelled: bool)
        requires
            old(self).wf(),
            old(self).phase == Phase::Probe,
        ensures
            final(self).wf(),
            final(self).continues(*old(self)),
            final(self).nearer_end(*old(self)),
            final(self).keeps_records(*old(self)),
            cancelled ==> final(self).phase == Phase::Sweep,
            !cancelled ==> final(self).phase == Phase::Refining && final(self).probe->0@
                == RefineState::start(final(self).config.gamut->0.refine),
    {
        match self.config.gamut {
            Some(opts) if !cancelled => {
                let p = refine_gamut(&opts.refine);
                self.probe = Some(p);
                self.vertex_readings = Vec::new();
                self.phase = Phase::Refining;
            },
            _ => {
                self.phase = Phase::Sweep;
            },
        }
    }
}

/// Records a reading as a sample.
fn record(
    config: &CaptureConfig,
    requested: Triple,
    r: Reading,
    source: SampleSource,
    repeats: u32,
) -> (res: Sample)
    ensures
        res.requested == requested,
        forall|code: CodeValue| #[trigger]
            is_code(requested, code) ==> sample_of(res, *config, code, r, source, repeats),
{
    Sample {
        requested,
        measured: Measured { raw: r.raw, xyz: r.xyz, xy: r.xy },
        context: SampleContext {
            window_fraction: config.window_fraction,
            border: config.border,
            settle_ms: config.settle_ms,
        },
        source,
        repeats,
        adaptive_tier: r.tier,
        elapsed_ms: r.elapsed_ms,
    }
}

/// The sample of the code value that was asked for was added to those of the
/// format under way.
pub open spec fn sample_added(
    after: Session,
    before: Session,
    r: Reading,
    source: SampleSource,
    repeats: u32,
) -> bool {
    &&& after.samples@.len() == before.samples@.len() + 1
    &&& after.samples@.drop_last() == before.samples@
    &&& sample_of(after.samples@.last(), after.config, before.asked()->0, r, source, repeats)
    &&& after.outcome == before.outcome
    &&& after.buffer == before.buffer
    &&& after.gamut == before.gamut
}

impl Session {
    /// Takes note of the vertex that the refinement asked for. It is a real
    /// measurement, and recorded as a sample too. `lab` is its colour relative
    /// to the measured white.
    pub fn vertex_measured(
        &mut self,
        reading: Reading,
        lab: Triple,
        repeats: u32,
        trustworthy: bool,
    ) -> (res: GatherEvent)
        requires
            old(self).wf(),
            old(self).phase == Phase::Refining,
            old(self).probe->0@.step() is Measure,
        ensures
            final(self).wf(),
            final(self).continues(*old(self)),
            final(self).nearer_end(*old(self)),
            final(self).phase == Phase::Refining,
            final(self).probe->0@ == old(self).probe->0@.measured(trustworthy),
            final(self).vertex_readings@ == old(self).vertex_readings@.push(
                VertexReading {
                    code_value: final(self).samples@.last().requested,
                    xyz: reading.xyz,
                    lab,
                },
            ),
            sample_added(*final(self), *old(self), reading, SampleSource::GamutProbe, repeats),
            res matches GatherEvent::ProbeSample { format_index, sample } && format_index
                == final(self).format && same_sample(sample, final(self).samples@.last()),
    {
        let requested = self.to_show().unwrap();
        let vertex = VertexReading { code_value: requested, xyz: reading.xyz, lab };
        match self.probe.take() {
            Some(mut p) => {
                p.measured(trustworthy);
                proof {
                    old(self).probe->0.lemma_state();
                    lemma_vertices_grow(old(self).probe->0@, trustworthy);
                    every_answer_makes_progress(old(self).probe->0@, trustworthy);
                }
                self.probe = Some(p);
            },
            None => {},
        }
        self.vertex_readings.push(vertex);
        let sample = record(&self.config, requested, reading, SampleSource::GamutProbe, repeats);
        let copy = copy_sample(&sample);
        self.samples.push(sample);
        assert(self.samples@.drop_last() == old(self).samples@);
        GatherEvent::ProbeSample { format_index: self.format, sample: copy }
    }

    /// Takes note of whether the corners that the refinement asked about
    /// collapsed.
    pub fn collapse_judged(&mut self, collapsed: bool)
        requires
            old(self).wf(),
            old(self).phase == Phase::Refining,
            old(self).probe->0@.step() is JudgeCollapse,
        ensures
            final(self).wf(),
            final(self).continues(*old(self)),
            final(self).nearer_end(*old(self)),
            final(self).keeps_records(*old(self)),
            final(self).phase == Phase::Refining,
            final(self).vertex_readings == old(self).vertex_readings,
            final(self).probe->0@ == old(self).probe->0@.collapse_judged(collapsed),
    {
        match self.probe.take() {
            Some(mut p) => {
                p.collapse_judged(collapsed);
                proof {
                    old(self).probe->0.lemma_state();
                    lemma_vertices_grow(old(self).probe->0@, collapsed);
                    every_answer_makes_progress(old(self).probe->0@, collapsed);
                }
                self.probe = Some(p);
            },
            None => {},
        }
    }

    /// Takes note of whether the patch that the refinement asked about is flat.
    pub fn flat_judged(&mut self, flat: bool)
        requires
            old(self).wf(),
            old(self).phase == Phase::Refining,
            old(self).probe->0@.step() is JudgeFlat,
        ensures
            final(self).wf(),
            final(self).continues(*old(self)),
            final(self).nearer_end(*old(self)),
            final(self).keeps_records(*old(self)),
            final(self).phase == Phase::Refining,
            final(self).vertex_readings == old(self).vertex_readings,
            final(self).probe->0@ == old(self).probe->0@.flat_judged(flat),
    {
        match self.probe.take() {
            Some(mut p) => {
                p.flat_judged(flat);
                proof {
                    old(self).probe->0.lemma_state();
                    lemma_vertices_grow(old(self).probe->0@, flat);
                    every_answer_makes_progress(old(self).probe->0@, flat);
                }
                self.probe = Some(p);
            },
            None => {},
        }
    }

    /// Records the gamut once the refinement is done.
    pub fn finish_probe(&mut self) -> (res: GatherEvent)
        requires
            old(self).wf(),
            old(self).phase == Phase::Refining,
            old(self).probe->0@.step() is Done,
        ensures
            final(self).wf(),
            final(self).continues(*old(self)),
            final(self).nearer_end(*old(self)),
            final(self).phase == Phase::Sweep,
            final(self).samples == old(self).samples,
            final(self).outcome == old(self).outcome,
            final(self).buffer == old(self).buffer,
            ({
                let mesh = old(self).probe->0@.mesh;
                &&& res == (GatherEvent::GamutProbed {
                    index: old(self).format,
                    vertices: mesh.vertices.len() as usize,
                    folds: status_count(mesh.patches, PatchStatus::Folded) as usize,
                })
                &&& final(self).gamut matches Some(g) && {
                    &&& g.white_xyz == old(self).vertex_readings@[0].xyz
                    &&& forall|i: int|
                        0 <= i < mesh.vertices.len() ==> is_code(
                            (#[trigger] g.vertices@[i]).code_value,
                            grid_code(
                                mesh.vertices[i].code_value,
                                old(self).probe->0@.params.max_depth,
                            ),
                        )
                    &&& g.vertices@ == Seq::new(
                        mesh.vertices.len(),
                        |i: int| captured_vertex(mesh.vertices[i], old(self).vertex_readings@[i]),
                    )
                    &&& g.patches@.len() == mesh.patches.len()
                    &&& forall|i: int|
                        0 <= i < mesh.patches.len() ==> captured_patch(
                            mesh.patches[i],
                            #[trigger] g.patches@[i],
                        )
                }
            }),
    {
        self.phase = Phase::Sweep;
        match self.probe.take() {
            Some(p) => {
                proof {
                    p.lemma_state();
                }
                let mesh = p.into_mesh();
                let white = self.vertex_readings[0].xyz;
                let gamut = mesh.to_capture(white, &self.vertex_readings);
                assert forall|i: int| 0 <= i < mesh.vertices@.len() implies is_code(
                    (#[trigger] gamut.vertices@[i]).code_value,
                    grid_code(
                        mesh.vertices@[i].code_value,
                        old(self).probe->0@.params.max_depth,
                    ),
                ) by {
                    assert(samples_vertex(
                        self.samples@[i],
                        self.vertex_readings@[i].code_value,
                        self.vertex_readings@[i].xyz,
                    ));
                }
                self.gamut = Some(gamut);
                GatherEvent::GamutProbed {
                    index: self.format,
                    vertices: mesh.vertices.len(),
                    folds: mesh.count(PatchStatus::Folded),
                }
            },
            None => GatherEvent::GamutProbed { index: self.format, vertices: 0, folds: 0 },
        }
    }
}

/// The sweep of a format: the sequence, then the scatter points. Where the
/// gamut was probed, only accepted points are kept.
pub open spec fn sweep_of<F: Fn(CodeValue) -> bool>(
    sweep: Seq<CodeValue>,
    config: CaptureConfig,
    probed: bool,
    accept: F,
) -> bool {
    match config.scatter {
        None => sweep == config.sequence@,
        Some(req) => if probed {
            exists|verdicts: Seq<bool>|
                #![auto]
                {
                    &&& completes(req.seed, verdicts, req.count)
                    &&& sweep == config.sequence@ + kept(req.seed, verdicts)
                    &&& forall|i: int|
                        0 <= i < verdicts.len() ==> call_ensures(
                            accept,
                            (candidate(req.seed, i as nat),),
                            #[trigger] verdicts[i],
                        )
                }
        } else {
            sweep == config.sequence@ + candidates(req.seed, req.count as nat)
        },
    }
}

/// Appends points to a sweep.
fn extend(sweep: &mut Vec<CodeValue>, points: &Vec<CodeValue>)
    ensures
        final(sweep)@ == old(sweep)@ + points@,
{
    let mut i: usize = 0;
    let ghost before = sweep@;
    assert(before + points@.take(0) == before);
    while i < points.len()
        invariant
            i <= points@.len(),
            sweep@ == before + points@.take(i as int),
        decreases points@.len() - i,
    {
        sweep.push(points[i]);
        assert(points@.take(i + 1) == points@.take(i as int).push(points@[i as int]));
        i += 1;
        assert(sweep@ == before + points@.take(i as int));
    }
    assert(points@.take(i as int) == points@);
}

/// Lays out a sweep.
fn lay_out<F: Fn(CodeValue) -> bool>(config: &CaptureConfig, probed: bool, accept: F) -> (res: Vec<
    CodeValue,
>)
    requires
        config.wf(),
        forall|p: CodeValue| call_requires(accept, (p,)),
    ensures
        sweep_of(res@, *config, probed, accept),
        are_fractions(res@),
{
    let mut sweep: Vec<CodeValue> = Vec::new();
    extend(&mut sweep, &config.sequence);
    assert(sweep@ == config.sequence@);
    if let Some(req) = config.scatter {
        if probed {
            let points = scatter_accepted(req.count, req.seed, accept);
            extend(&mut sweep, &points);
            proof {
                let verdicts = choose|verdicts: Seq<bool>|
                    #![auto]
                    {
                        &&& completes(req.seed, verdicts, req.count)
                        &&& points@ == kept(req.seed, verdicts)
                        &&& forall|i: int|
                            0 <= i < verdicts.len() ==> call_ensures(
                                accept,
                                (candidate(req.seed, i as nat),),
                                #[trigger] verdicts[i],
                            )
                    };
                assert(completes(req.seed, verdicts, req.count));
                assert(sweep@ == config.sequence@ + kept(req.seed, verdicts));
                scatter_points_are_fractions(req.seed, verdicts);
            }
        } else {
            let points = scatter(req.count, req.seed);
            extend(&mut sweep, &points);
        }
    }
    sweep
}

impl Session {
    /// Lays out the sweep. `accept` tells whether a scatter point is within the
    /// gamut that was probed.
    pub fn plan_sweep<F: Fn(CodeValue) -> bool>(&mut self, accept: F)
        requires
            old(self).wf(),
            old(self).phase == Phase::Sweep,
            forall|p: CodeValue| call_requires(accept, (p,)),
        ensures
            final(self).wf(),
            final(self).continues(*old(self)),
            final(self).nearer_end(*old(self)),
            final(self).keeps_records(*old(self)),
            final(self).phase == next_point(final(self).sweep@, 0),
            sweep_of(final(self).sweep@, final(self).config, final(self).gamut is Some, accept),
    {
        let probed: bool = self.gamut.is_some();
        let sweep = lay_out(&self.config, probed, accept);
        self.phase = if sweep.len() > 0 {
            Phase::Sweeping { at: 0 }
        } else {
            Phase::Closing { darken: true }
        };
        self.sweep = sweep;
    }

    /// Takes note of the reading of a point, or that the sweep was cut short.
    pub fn swept(&mut self, reading: Option<Reading>) -> (res: Option<GatherEvent>)
        requires
            old(self).wf(),
            old(self).phase is Sweeping,
        ensures
            final(self).wf(),
            final(self).continues(*old(self)),
            final(self).nearer_end(*old(self)),
            final(self).sweep == old(self).sweep,
            match reading {
                None => {
                    &&& res is None
                    &&& final(self).phase == (Phase::Closing { darken: true })
                    &&& final(self).keeps_records(*old(self))
                },
                Some(r) => {
                    let at = old(self).phase->at;
                    &&& final(self).phase == next_point(old(self).sweep@, at + 1)
                    &&& sample_added(*final(self), *old(self), r, SampleSource::Sweep, 1)
                    &&& (res matches Some(GatherEvent::Sample {
                        format_index,
                        index,
                        total,
                        sample,
                    }) && format_index == final(self).format && index == at && total
                        == old(self).sweep@.len() && same_sample(
                        sample,
                        final(self).samples@.last(),
                    ))
                },
            },
    {
        let at: usize = match self.phase {
            Phase::Sweeping { at } => at,
            _ => 0,
        };
        let total: usize = self.sweep.len();
        match reading {
            None => {
                self.phase = Phase::Closing { darken: true };
                None
            },
            Some(r) => {
                let code: CodeValue = self.sweep[at];
                let requested = code_numbers(&code);
                let sample = record(&self.config, requested, r, SampleSource::Sweep, 1);
                let copy = copy_sample(&sample);
                self.samples.push(sample);
                assert(self.samples@.drop_last() == old(self).samples@);
                self.phase = if at + 1 < total {
                    Phase::Sweeping { at: at + 1 }
                } else {
                    Phase::Closing { darken: true }
                };
                Some(
                    GatherEvent::Sample {
                        format_index: self.format,
                        index: at,
                        total,
                        sample: copy,
                    },
                )
            },
        }
    }

    /// Ends a format: its trial is recorded.
    pub fn close(&mut self) -> (res: GatherEvent)
        requires
            old(self).wf(),
            old(self).phase is Closing,
        ensures
            final(self).wf(),
            final(self).nearer_end(*old(self)),
            final(self).config == old(self).config,
            final(self).stopped == old(self).stopped,
            final(self).format == old(self).format + 1,
            final(self).phase == next_format(final(self).config, final(self).format as int),
            res == (GatherEvent::FormatDone {
                index: old(self).format,
                samples: old(self).samples@.len() as usize,
            }),
            final(self).trials@.len() == old(self).trials@.len() + 1,
            final(self).trials@.drop_last() == old(self).trials@,
            ({
                let t = final(self).trials@.last();
                let f = old(self).config.formats@[old(self).format as int];
                &&& spec_recorded(f.spec.name, f.figures, t.requested)
                &&& t.pixel_format@ == trial_buffer(old(self).buffer, f.spec)
                &&& t.outcome == old(self).outcome
                &&& t.gamut == old(self).gamut
                &&& t.samples@ == old(self).samples@
                &&& vertices_sampled(t.gamut, t.samples@)
                &&& points_sampled(
                    old(self).sweep@,
                    t.samples@,
                    old(self).probe_samples() as int,
                )
                &&& !old(self).phase->darken ==> t.samples@.len() == 0
            }),
    {
        let n: usize = self.samples.len();
        let index: usize = self.format;
        let total: usize = self.config.formats.len();
        let mut samples: Vec<Sample> = Vec::new();
        std::mem::swap(&mut samples, &mut self.samples);
        let mut outcome = Negotiation::Unmanaged;
        std::mem::swap(&mut outcome, &mut self.outcome);
        let gamut = self.gamut.take();
        let f = &self.config.formats[index];
        let pixel_format: String = match self.buffer {
            Some(b) => b.name().to_owned(),
            None => f.spec.buffer_label().to_owned(),
        };
        let requested = f.spec.color_description(&f.figures);
        self.trials.push(FormatTrial { requested, pixel_format, outcome, gamut, samples });
        assert(self.trials@.drop_last() == old(self).trials@);
        self.format = index + 1;
        self.phase = if self.format < total {
            Phase::Format
        } else {
            Phase::Finished
        };
        GatherEvent::FormatDone { index, samples: n }
    }
}

/// A session that runs to its end has one trial for every format, and what is
/// left of a session never falls below nothing, so that it does come to its
/// end.
pub proof fn finished_sessions_are_complete(s: Session)
    requires
        s.wf(),
    ensures
        s.phase == Phase::Finished && !s.stopped ==> s.trials@.len() == s.config.formats@.len(),
        s.formats_left() >= 0,
        s.stages_left() >= 0,
        s.steps_left() >= 0,
{
}

/// What is recorded as asked for is what was shown: a code value has one triple of
/// numbers, whether [`Session::to_show`] gives it or a sample carries it.
pub proof fn samples_record_what_was_shown(s: Session, shown: Triple, recorded: Triple)
    requires
        s.wf(),
        s.asked() is Some,
        is_code(shown, s.asked()->0),
        is_code(recorded, s.asked()->0),
    ensures
        shown == recorded,
{
    if s.phase == Phase::Refining {
        s.probe->0.lemma_state();
        lemma_grid_code(s.probe->0@.step()->code_value, s.probe->0@.params.max_depth);
    }
    code_is_unique(shown, recorded, s.asked()->0);
}

/// Wherever a session stands, each gamut that it has recorded has a sample for each
/// of its vertices, with the vertex's code value and colour.
pub proof fn recorded_gamuts_are_sampled(s: Session, i: int, k: int)
    requires
        s.wf(),
        0 <= i < s.trials@.len(),
        s.trials@[i].gamut is Some,
        0 <= k < s.trials@[i].gamut->0.vertices@.len(),
    ensures
        k < s.trials@[i].samples@.len(),
        s.trials@[i].samples@[k].source == SampleSource::GamutProbe,
        s.trials@[i].samples@[k].requested == s.trials@[i].gamut->0.vertices@[k].code_value,
        s.trials@[i].samples@[k].measured.xyz == s.trials@[i].gamut->0.vertices@[k].xyz,
{
    let t = s.trials@[i];
    assert(vertices_sampled(t.gamut, t.samples@));
    assert(samples_vertex(
        t.samples@[k],
        t.gamut->0.vertices@[k].code_value,
        t.gamut->0.vertices@[k].xyz,
    ));
}

// ---------------------------------------------------------------------------
// The capture
// ---------------------------------------------------------------------------

/// What is known of a session apart from its measurements.
#[derive(Debug)]
pub struct SessionFacts {
    /// When the session ran.
    pub timestamp: String,
    /// Version of the program.
    pub version: String,
    /// The colorimeter.
    pub device: DeviceInfo,
    /// The output under test, if it is connected.
    pub output: Option<OutputDescription>,
    /// What the compositor advertised.
    pub capabilities: ColorCapabilities,
    /// Name of the compositor's process.
    pub process: Option<String>,
    /// The session's `XDG_CURRENT_DESKTOP`.
    pub desktop: Option<String>,
    /// The globals that the compositor advertised.
    pub globals: Vec<GlobalInfo>,
}

/// The capabilities in the form that a capture records.
pub fn to_cap_capabilities(c: ColorCapabilities) -> (res: Capabilities)
    ensures
        res.supported_transfer_functions == c.transfer_functions,
        res.supported_primaries == c.primaries,
        res.supported_features == c.features,
        res.supported_render_intents == c.render_intents,
{
    Capabilities {
        supported_transfer_functions: c.transfer_functions,
        supported_primaries: c.primaries,
        supported_features: c.features,
        supported_render_intents: c.render_intents,
    }
}

/// The desktop's name, unless it is empty.
pub open spec fn named_desktop(desktop: Option<String>) -> Option<String> {
    match desktop {
        Some(d) if d@.len() > 0 => Some(d),
        _ => None,
    }
}

fn known_desktop(desktop: Option<String>) -> (res: Option<String>)
    ensures
        res == named_desktop(desktop),
{
    match desktop {
        Some(d) => if same_text(d.as_str(), "") {
            proof {
                reveal_strlit("");
            }
            None
        } else {
            proof {
                reveal_strlit("");
                assert(d@.len() == 0 ==> d@ == ""@);
            }
            Some(d)
        },
        None => None,
    }
}

/// A capture's record of the output: everything but the name is blank where the
/// output was not found.
pub open spec fn records_output(
    o: OutputInfo,
    name: Seq<char>,
    desc: Option<OutputDescription>,
) -> bool {
    &&& o.name@ == name
    &&& match desc {
        Some(d) => {
            &&& o.make == d.make
            &&& o.model == d.model
            &&& o.description == d.description
            &&& o.mode == match d.size {
                Some((width, height)) => Some(OutputMode { width, height, refresh_mhz: None }),
                None => None,
            }
        },
        None => o.make@.len() == 0 && o.model@.len() == 0 && o.description@.len() == 0
            && o.mode is None,
    }
}

/// Records the output under test.
pub fn output_info(name: String, desc: Option<OutputDescription>) -> (res: OutputInfo)
    ensures
        records_output(res, name@, desc),
{
    match desc {
        Some(d) => OutputInfo {
            name,
            make: d.make,
            model: d.model,
            description: d.description,
            mode: match d.size {
                Some((width, height)) => Some(OutputMode { width, height, refresh_mhz: None }),
                None => None,
            },
        },
        None => OutputInfo {
            name,
            make: String::new(),
            model: String::new(),
            description: String::new(),
            mode: None,
        },
    }
}

/// A number of 32 bits, the greatest one for anything larger.
pub open spec fn capped(n: usize) -> u32 {
    if n <= u32::MAX {
        n as u32
    } else {
        u32::MAX
    }
}

fn cap(n: usize) -> (res: u32)
    ensures
        res == capped(n),
{
    if n <= u32::MAX as usize {
        n as u32
    } else {
        u32::MAX
    }
}

/// A capture's record of how a session was run.
pub open spec fn records_run(r: RunInfo, config: CaptureConfig) -> bool {
    &&& r.prep_ms == config.prep_ms
    &&& r.fast_integration_ms == match config.gamut {
        Some(opts) => opts.fast_integration_ms,
        None => None,
    }
    &&& r.scatter == match config.scatter {
        Some(req) => Some(ScatterInfo { count: capped(req.count), seed: req.seed }),
        None => None,
    }
    &&& r.gamut_probe == match config.gamut {
        Some(opts) => Some(
            GamutProbeInfo {
                repeats: capped(opts.repeats),
                max_depth: opts.refine.max_depth,
                flat_eps: opts.flat_eps,
                fold_eps: opts.fold_eps,
                fold_min_side: opts.fold_min_side,
            },
        ),
        None => None,
    }
}

/// Records how a session is run.
pub fn run_info(config: &CaptureConfig) -> (res: RunInfo)
    ensures
        records_run(res, *config),
{
    RunInfo {
        prep_ms: config.prep_ms,
        fast_integration_ms: match config.gamut {
            Some(opts) => opts.fast_integration_ms,
            None => None,
        },
        scatter: match config.scatter {
            Some(req) => Some(ScatterInfo { count: cap(req.count), seed: req.seed }),
            None => None,
        },
        gamut_probe: match config.gamut {
            Some(opts) => Some(
                GamutProbeInfo {
                    repeats: cap(opts.repeats),
                    max_depth: opts.refine.max_depth,
                    flat_eps: opts.flat_eps,
                    fold_eps: opts.fold_eps,
                    fold_min_side: opts.fold_min_side,
                },
            ),
            None => None,
        },
    }
}

impl Session {
    /// The capture of whatever was measured: a session that was cut short gives
    /// the trials that were completed.
    pub fn into_capture(self, facts: SessionFacts) -> (res: Capture)
        requires
            self.wf(),
        ensures
            res.schema_version == SCHEMA_VERSION,
            res.timestamp == facts.timestamp,
            res.tool.name@ == "tristim"@,
            res.tool.version == facts.version,
            res.tool.git_revision is None,
            res.device == facts.device,
            records_output(res.output, self.config.output@, facts.output),
            res.capabilities.supported_transfer_functions == facts.capabilities.transfer_functions,
            res.capabilities.supported_primaries == facts.capabilities.primaries,
            res.capabilities.supported_features == facts.capabilities.features,
            res.capabilities.supported_render_intents == facts.capabilities.render_intents,
            res.compositor == (CompositorInfo {
                process: facts.process,
                desktop: named_desktop(facts.desktop),
                globals: facts.globals,
            }),
            res.run matches Some(r) && records_run(r, self.config),
            res.trials == self.trials,
    {
        let run = run_info(&self.config);
        Capture {
            schema_version: SCHEMA_VERSION,
            timestamp: facts.timestamp,
            tool: ToolInfo {
                name: "tristim".to_owned(),
                version: facts.version,
                git_revision: None,
            },
            device: facts.device,
            output: output_info(self.config.output, facts.output),
            capabilities: to_cap_capabilities(facts.capabilities),
            compositor: CompositorInfo {
                process: facts.process,
                desktop: known_desktop(facts.desktop),
                globals: facts.globals,
            },
            run: Some(run),
            trials: self.trials,
        }
    }
}

// ---------------------------------------------------------------------------
// What a session does
// ---------------------------------------------------------------------------

/// An attempt with a description leads to a ready surface with the compositor's
/// verdict, to a refusal with the compositor's words, to one more attempt without a
/// description where there is no colour manager, or to the end. Without a description
/// every attempt is the last one: it shows patches unmanaged or is refused.
pub proof fn attempts_are_judged(managed: bool, attempt: Attempt, res: Opening)
    requires
        call_ensures(judge_attempt, (managed, attempt), res),
    ensures
        res is Retry <==> managed && attempt is NoColorManager,
        res is Fatal <==> managed && attempt is Failed,
        res is Ready <==> attempt is Opened,
        res is Refused <==> attempt is DescriptionFailed || (!managed && !(attempt is Opened)),
        attempt matches Attempt::Opened { state, buffer } ==> {
            &&& res->Ready_buffer == buffer
            &&& !managed ==> res->Ready_outcome is Unmanaged
            &&& managed ==> match state {
                Some(DescriptionState::Ready { identity }) => res->Ready_outcome is Accepted
                    && res->Ready_outcome->identity == identity,
                Some(DescriptionState::Failed { cause, message }) => res->Ready_outcome is Rejected
                    && res->Ready_outcome->cause@ == cause@ && res->Ready_outcome->message@
                    == message@,
                Some(DescriptionState::Pending) => res->Ready_outcome is Unmanaged,
                None => res->Ready_outcome is Unmanaged,
            }
        },
        res is Refused ==> res->Refused_outcome is Rejected,
        managed && attempt is DescriptionFailed ==> {
            &&& res->Refused_outcome->cause@ == attempt->cause@
            &&& res->Refused_outcome->message@ == attempt->DescriptionFailed_message@
        },
        !managed && res is Refused ==> res->Refused_outcome->cause@
            == "unmanaged_fallback_failed"@,
        !managed && attempt is Failed ==> res->Refused_outcome->message@
            == attempt->Failed_message@,
        !managed && attempt is DescriptionFailed ==> res->Refused_outcome->message@
            == "compositor rejected our image description: "@ + attempt->cause@ + ": "@
            + attempt->DescriptionFailed_message@,
        managed && attempt is Failed ==> res->Fatal_message@ == attempt->Failed_message@,
{
}

/// A copy holds what the original does.
pub proof fn copies_hold_the_same(s: Sample, t: Sample, o: Negotiation, p: Negotiation)
    requires
        call_ensures(copy_sample, (&s,), t),
        call_ensures(copy_outcome, (&o,), p),
    ensures
        t.requested == s.requested,
        t.measured.raw@ == s.measured.raw@,
        t.measured.xyz == s.measured.xyz,
        t.measured.xy == s.measured.xy,
        t.context == s.context,
        t.source == s.source,
        t.repeats == s.repeats,
        t.adaptive_tier == s.adaptive_tier,
        t.elapsed_ms == s.elapsed_ms,
        o is Accepted <==> p is Accepted,
        o is Rejected <==> p is Rejected,
        o is Accepted ==> p->identity == o->identity,
        o is Rejected ==> p->cause@ == o->cause@ && p->message@ == o->message@,
{
}

/// A sample that is added goes behind those that are there, and holds the reading and
/// the conditions under which it was taken, each in its place. Two readings of the
/// same point differ in nothing but the reading.
pub proof fn samples_hold_their_readings(
    after: Session,
    before: Session,
    r: Reading,
    source: SampleSource,
    repeats: u32,
    i: int,
)
    requires
        sample_added(after, before, r, source, repeats),
    ensures
        ({
            let s = after.samples@[before.samples@.len() as int];
            &&& after.samples@.len() == before.samples@.len() + 1
            &&& 0 <= i < before.samples@.len() ==> after.samples@[i] == before.samples@[i]
            &&& s.measured.raw@ == r.raw@
            &&& s.measured.xyz == r.xyz
            &&& s.measured.xy == r.xy
            &&& s.adaptive_tier == r.tier
            &&& s.elapsed_ms == r.elapsed_ms
            &&& s.context.window_fraction == after.config.window_fraction
            &&& s.context.border == after.config.border
            &&& s.context.settle_ms == after.config.settle_ms
            &&& s.source == source
            &&& s.repeats == repeats
            &&& is_code(s.requested, before.asked()->0)
        }),
{
    if 0 <= i < before.samples@.len() {
        assert(after.samples@.drop_last()[i] == after.samples@[i]);
    }
}

/// A sweep goes on point by point and ends with a dark surface; formats follow one
/// another and the session ends with the last one.
pub proof fn points_and_formats_follow_one_another(
    sweep: Seq<CodeValue>,
    config: CaptureConfig,
    at: int,
)
    requires
        0 <= at,
        sweep.len() <= usize::MAX,
    ensures
        at < sweep.len() ==> next_point(sweep, at) is Sweeping && next_point(sweep, at)->at == at,
        at >= sweep.len() ==> next_point(sweep, at) is Closing && next_point(sweep, at)->darken,
        at < config.formats@.len() ==> next_format(config, at) == Phase::Format,
        at >= config.formats@.len() ==> next_format(config, at) == Phase::Finished,
{
}

/// What is to be done is what the phase says: the format under way is begun and
/// opened, with its description or without, and the point of the sweep that is due is
/// shown.
pub proof fn tasks_follow_the_phase(s: Session, t: Task)
    requires
        s.wf(),
        call_ensures(Session::next, (&s,), t),
    ensures
        s.phase matches Phase::Counting { remaining } ==> t is Count && t->remaining == remaining,
        s.phase is Format ==> t is BeginFormat && t->BeginFormat_index == s.format,
        s.phase matches Phase::Opening { managed } ==> t is Open && t->Open_index == s.format
            && t->managed == managed,
        s.phase is Probe <==> t is BeginProbe,
        s.phase is Refining <==> t is Refine,
        s.phase is Sweep <==> t is PlanSweep,
        s.phase matches Phase::Sweeping { at } ==> t is Show && t->Show_index == at && t->total
            == s.sweep@.len() && t->code_value == s.sweep@[at as int],
        s.phase matches Phase::Closing { darken } ==> t is Close && t->darken == darken,
        s.phase is Finished <==> t is Finish,
{
    assert(s.sweep.len() == s.sweep@.len());
}

/// What is shown is the point of the sweep that is due, or the vertex that the
/// refinement asks for, and nothing otherwise.
pub proof fn due_points_are_shown(s: Session, shown: Option<Triple>)
    requires
        s.wf(),
        call_ensures(Session::to_show, (&s,), shown),
    ensures
        s.phase matches Phase::Sweeping { at } ==> shown is Some && is_code(
            shown->0,
            s.sweep@[at as int],
        ),
        s.phase is Refining && s.probe->0@.step() is Measure ==> shown is Some && is_code(
            shown->0,
            grid_code(s.probe->0@.step()->code_value, s.probe->0@.params.max_depth),
        ),
        !(s.phase is Sweeping) && !(s.phase is Refining) ==> shown is None,
{
}

/// The report of a format's start names the format that is meant, out of all of them.
pub proof fn starts_name_their_format(e: GatherEvent, config: CaptureConfig, i: int)
    requires
        0 <= i < config.formats@.len(),
        starts_format(e, config, i),
    ensures
        e is FormatStart,
        e->FormatStart_index == i,
        e->FormatStart_total == config.formats@.len(),
        e->token@ == config.formats@[i].spec.token@,
        config.formats@[i].spec.buffer matches BufferPolicy::Exact(f) ==> e->pixel_format@
            == f.name_text(),
        config.formats@[i].spec.buffer is Auto ==> e->pixel_format@ == "auto"@,
        e->requested is None <==> config.formats@[i].spec.name == FormatName::Unmanaged,
{
}

/// A trial records the buffer that was used, and the one that was asked for where none
/// was.
pub proof fn trials_name_their_buffer(buffer: Option<BufferFormat>, spec: FormatSpec)
    ensures
        buffer matches Some(f) ==> trial_buffer(buffer, spec) == f.name_text(),
        buffer is None && spec.buffer is Exact ==> trial_buffer(buffer, spec)
            == spec.buffer->0.name_text(),
        buffer is None && spec.buffer is Auto ==> trial_buffer(buffer, spec) == "auto"@,
{
}

/// A sweep begins with the sequence, whole and in order. Without scatter points there
/// is nothing more; where no gamut was probed, all of them follow; where one was, only
/// points that were accepted do, and no more than were asked for.
pub proof fn sweeps_begin_with_the_sequence<F: Fn(CodeValue) -> bool>(
    sweep: Seq<CodeValue>,
    config: CaptureConfig,
    probed: bool,
    accept: F,
    points: Vec<CodeValue>,
    k: int,
)
    requires
        sweep_of(sweep, config, probed, accept),
        config.scatter matches Some(req) ==> call_ensures(
            scatter,
            (req.count, req.seed),
            points,
        ),
    ensures
        sweep.len() >= config.sequence@.len(),
        sweep.take(config.sequence@.len() as int) == config.sequence@,
        config.scatter is None ==> sweep.len() == config.sequence@.len(),
        config.scatter is Some && !probed ==> sweep.skip(config.sequence@.len() as int)
            == points@,
        config.scatter is Some ==> sweep.len() <= config.sequence@.len()
            + config.scatter->0.count,
        config.scatter is Some && probed && config.sequence@.len() <= k < sweep.len()
            ==> call_ensures(accept, (sweep[k],), true),
{
    let n = config.sequence@.len() as int;
    if let Some(req) = config.scatter {
        if probed {
            let verdicts = choose|verdicts: Seq<bool>|
                #![auto]
                {
                    &&& completes(req.seed, verdicts, req.count)
                    &&& sweep == config.sequence@ + kept(req.seed, verdicts)
                    &&& forall|i: int|
                        0 <= i < verdicts.len() ==> call_ensures(
                            accept,
                            (candidate(req.seed, i as nat),),
                            #[trigger] verdicts[i],
                        )
                };
            let rest = kept(req.seed, verdicts);
            assert(sweep.take(n) == config.sequence@);
            if n <= k < sweep.len() {
                let i = lemma_kept_was_accepted(req.seed, verdicts, k - n);
                assert(sweep[k] == rest[k - n]);
                assert(call_ensures(accept, (candidate(req.seed, i as nat),), verdicts[i]));
            }
        } else {
            let rest = candidates(req.seed, req.count as nat);
            assert(sweep.take(n) == config.sequence@);
            assert(sweep.skip(n) == rest);
        }
    } else {
        assert(sweep.take(n) == sweep);
    }
}

proof fn lemma_kept_was_accepted(seed: u64, verdicts: Seq<bool>, k: int) -> (i: int)
    requires
        0 <= k < kept(seed, verdicts).len(),
    ensures
        0 <= i < verdicts.len(),
        verdicts[i],
        kept(seed, verdicts)[k] == candidate(seed, i as nat),
    decreases verdicts.len(),
{
    let front = kept(seed, verdicts.drop_last());
    if k < front.len() {
        let i = lemma_kept_was_accepted(seed, verdicts.drop_last(), k);
        assert(verdicts.drop_last()[i] == verdicts[i]);
        i
    } else {
        verdicts.len() - 1
    }
}

/// A capture records what was asked for, each figure in its place: the preparation,
/// the scatter points with their seed, and how the gamut was probed. Numbers that are
/// too large for the record are cut to its greatest.
pub proof fn runs_are_recorded_as_asked(config: CaptureConfig, r: RunInfo)
    requires
        call_ensures(run_info, (&config,), r),
    ensures
        r.prep_ms == config.prep_ms,
        r.scatter is Some <==> config.scatter is Some,
        config.scatter matches Some(s) ==> {
            &&& r.scatter->0.seed == s.seed
            &&& s.count <= u32::MAX ==> r.scatter->0.count == s.count
            &&& s.count > u32::MAX ==> r.scatter->0.count == u32::MAX
        },
        r.gamut_probe is Some <==> config.gamut is Some,
        config.gamut matches Some(g) ==> {
            &&& r.fast_integration_ms == g.fast_integration_ms
            &&& r.gamut_probe->0.max_depth == g.refine.max_depth
            &&& r.gamut_probe->0.flat_eps == g.flat_eps
            &&& r.gamut_probe->0.fold_eps == g.fold_eps
            &&& r.gamut_probe->0.fold_min_side == g.fold_min_side
            &&& g.repeats <= u32::MAX ==> r.gamut_probe->0.repeats == g.repeats
            &&& g.repeats > u32::MAX ==> r.gamut_probe->0.repeats == u32::MAX
        },
        config.gamut is None ==> r.fast_integration_ms is None,
{
}

/// A capture names the output that was asked for, and describes the one that was
/// found, each text in its place.
pub proof fn outputs_are_recorded_as_found(
    name: String,
    desc: Option<OutputDescription>,
    o: OutputInfo,
)
    requires
        call_ensures(output_info, (name, desc), o),
    ensures
        o.name@ == name@,
        desc matches Some(d) ==> {
            &&& o.make@ == d.make@
            &&& o.model@ == d.model@
            &&& o.description@ == d.description@
            &&& o.mode is Some <==> d.size is Some
            &&& d.size matches Some(size) ==> o.mode->0.width == size.0 && o.mode->0.height
                == size.1 && o.mode->0.refresh_mhz is None
        },
        desc is None ==> o.mode is None && o.make@.len() == 0 && o.model@.len() == 0
            && o.description@.len() == 0,
{
}

/// A capture keeps the trials of its session, and the facts that it was given. An
/// empty name of a desktop is no name.
pub proof fn captures_keep_what_was_measured(s: Session, facts: SessionFacts, c: Capture)
    requires
        s.wf(),
        call_ensures(Session::into_capture, (s, facts), c),
    ensures
        c.trials@ == s.trials@,
        c.schema_version == 5,
        c.timestamp@ == facts.timestamp@,
        c.tool.version@ == facts.version@,
        c.device == facts.device,
        c.output.name@ == s.config.output@,
        c.capabilities.supported_transfer_functions@ == facts.capabilities.transfer_functions@,
        c.capabilities.supported_primaries@ == facts.capabilities.primaries@,
        c.capabilities.supported_features@ == facts.capabilities.features@,
        c.capabilities.supported_render_intents@ == facts.capabilities.render_intents@,
        c.compositor.process == facts.process,
        c.compositor.globals@ == facts.globals@,
        facts.desktop matches Some(d) ==> (d@.len() > 0 ==> c.compositor.desktop == Some(d)) && (
        d@.len() == 0 ==> c.compositor.desktop is None),
        facts.desktop is None ==> c.compositor.desktop is None,
        c.run is Some && c.run->0.prep_ms == s.config.prep_ms,
{
}

} // verus!
