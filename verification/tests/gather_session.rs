use tristim::capture::{
    AdaptiveTier, Capture, DeviceInfo, GlobalInfo, Negotiation, SampleSource, SCHEMA_VERSION,
};
use tristim::display::color_mgmt::{ColorCapabilities, DescriptionState};
use tristim::display::format::BufferFormat;
use tristim::display::surface::OutputDescription;
use tristim::gather::format::{parse_format, MasteringFigures};
use tristim::gather::gamut::{RefineParams, Step};
use tristim::gather::sequence::{grey_ramp, scatter};
use tristim::gather::session::{
    judge_attempt, rejection, Attempt, CaptureConfig, GamutProbeOpts, GatherError, GatherEvent,
    Opening, Reading, ScatterRequest, Session, SessionFacts, Task, TestFormat,
};
use tristim::gather::time::{date_of, rfc3339_utc};
use tristim::number::{CodeValue, Double, Fraction, Triple};

fn double(v: f64) -> Double {
    Double { bits: v.to_bits() }
}

fn triple(v: [f64; 3]) -> Triple {
    Triple { a: double(v[0]), b: double(v[1]), c: double(v[2]) }
}

fn config(formats: &[&str]) -> CaptureConfig {
    CaptureConfig {
        output: "DP-4".to_string(),
        cal_index: 0,
        settle_ms: 250,
        prep_ms: 2500,
        window_fraction: double(0.1),
        border: Some(triple([0.2; 3])),
        formats: formats
            .iter()
            .map(|f| TestFormat {
                spec: parse_format(f).unwrap(),
                figures: MasteringFigures { peak: None, min: None, max_cll: None, max_fall: None },
            })
            .collect(),
        sequence: grey_ramp(2),
        scatter: None,
        gamut: None,
    }
}

fn probed(mut c: CaptureConfig) -> CaptureConfig {
    c.gamut = Some(GamutProbeOpts {
        repeats: 4,
        fast_integration_ms: Some(200),
        refine: RefineParams { max_depth: 1, fold_levels: 3 },
        flat_eps: double(2.0),
        fold_eps: double(0.5),
        fold_min_side: double(0.25),
    });
    c
}

fn reading(y: f64) -> Reading {
    Reading {
        raw: vec![1, 2, 3],
        xyz: triple([0.0, y, 0.0]),
        xy: None,
        tier: Some(AdaptiveTier::Fast),
        elapsed_ms: Some(7),
    }
}

fn facts() -> SessionFacts {
    SessionFacts {
        timestamp: "2026-05-24T12:00:00Z".to_string(),
        version: "0.1.0".to_string(),
        device: DeviceInfo {
            product: "Spyder 2024".to_string(),
            usb_pid: 0x0a0b,
            serial: "87".to_string(),
            hw_version: (6, 0),
            cal_index: 0,
            calibration: None,
        },
        output: Some(OutputDescription {
            name: "DP-4".to_string(),
            make: "ASUS".to_string(),
            model: "PG27UCDM".to_string(),
            description: "a panel".to_string(),
            size: Some((3840, 2160)),
        }),
        capabilities: ColorCapabilities::default(),
        process: Some("niri".to_string()),
        desktop: Some(String::new()),
        globals: vec![GlobalInfo { interface: "wl_shm".to_string(), version: 1 }],
    }
}

/// Runs a session to its end; `open` answers the attempts to open a surface, and
/// `cancel` says after how many tasks to stop.
fn run(
    config: CaptureConfig,
    open: fn(usize, bool) -> Attempt,
    cancel: usize,
) -> Result<(Session, Vec<GatherEvent>), GatherError> {
    let (mut s, first) = Session::start(config);
    let mut events: Vec<GatherEvent> = first.into_iter().collect();
    for step in 0.. {
        let stop = step >= cancel;
        match s.next() {
            Task::Count { .. } => events.extend(s.counted(stop)),
            Task::BeginFormat { .. } => events.extend(s.begin_format(stop)),
            Task::Open { index, managed } => events.extend(s.opened(open(index, managed))?),
            Task::BeginProbe => s.begin_probe(stop),
            Task::Refine(Step::Measure { code_value: p }) => {
                let y = (p.r + p.g + p.b) as f64;
                events.push(s.vertex_measured(reading(y), triple([y, 0.0, 0.0]), 4, true));
            }
            Task::Refine(Step::JudgeCollapse { .. }) => s.collapse_judged(false),
            Task::Refine(Step::JudgeFlat { .. }) => s.flat_judged(true),
            Task::Refine(Step::Done) => events.push(s.finish_probe()),
            Task::PlanSweep => s.plan_sweep(|p: CodeValue| p.r.num < p.r.den / 2),
            Task::Show { index, .. } => {
                let r = if stop { None } else { Some(reading(index as f64)) };
                events.extend(s.swept(r));
            }
            Task::Close { .. } => events.push(s.close()),
            Task::Finish => break,
        }
    }
    Ok((s, events))
}

fn accept(_: usize, _: bool) -> Attempt {
    Attempt::Opened {
        state: Some(DescriptionState::Ready { identity: 42 }),
        buffer: BufferFormat::Xrgb2101010,
    }
}

fn kinds(events: &[GatherEvent]) -> Vec<&'static str> {
    events
        .iter()
        .map(|e| match e {
            GatherEvent::DeviceReady { .. } => "ready",
            GatherEvent::Countdown { .. } => "count",
            GatherEvent::FormatStart { .. } => "start",
            GatherEvent::Negotiation(_) => "outcome",
            GatherEvent::Sample { .. } => "sample",
            GatherEvent::ProbeSample { .. } => "probe",
            GatherEvent::GamutProbed { .. } => "probed",
            GatherEvent::FormatDone { .. } => "done",
        })
        .collect()
}

#[test]
fn a_session_records_every_format() {
    let (s, events) = run(config(&["unmanaged", "srgb:buf=rgb565"]), accept, usize::MAX).unwrap();
    assert_eq!(
        kinds(&events),
        [
            "count", "count", "start", "outcome", "sample", "sample", "done", "start", "outcome",
            "sample", "sample", "done"
        ]
    );
    assert!(matches!(events[0], GatherEvent::Countdown { remaining: 2 }));
    assert!(matches!(events[1], GatherEvent::Countdown { remaining: 1 }));
    match &events[7] {
        GatherEvent::FormatStart { index, total, token, pixel_format, requested } => {
            assert_eq!((*index, *total), (1, 2));
            assert_eq!((token.as_str(), pixel_format.as_str()), ("srgb:buf=rgb565", "rgb565"));
            assert_eq!(requested.as_ref().unwrap().primaries, "srgb");
        }
        other => panic!("{other:?}"),
    }
    assert!(!s.stopped);
    let c: Capture = s.into_capture(facts());
    assert_eq!(c.schema_version, SCHEMA_VERSION);
    assert_eq!((c.tool.name.as_str(), c.tool.version.as_str()), ("tristim", "0.1.0"));
    assert_eq!((c.output.name.as_str(), c.output.make.as_str()), ("DP-4", "ASUS"));
    assert_eq!(c.output.mode.map(|m| (m.width, m.height)), Some((3840, 2160)));
    assert_eq!(c.compositor.desktop, None);
    assert_eq!(c.compositor.globals.len(), 1);
    let run = c.run.unwrap();
    assert_eq!((run.prep_ms, run.fast_integration_ms), (2500, None));
    assert_eq!(c.trials.len(), 2);
    let t = &c.trials[1];
    assert_eq!(t.pixel_format, "xrgb2101010");
    assert!(matches!(t.outcome, Negotiation::Accepted { identity: 42 }));
    assert!(t.gamut.is_none());
    assert_eq!(t.samples.len(), 2);
    assert_eq!(t.samples[0].requested, triple([0.0; 3]));
    let sample = &t.samples[1];
    assert_eq!(sample.requested, triple([1.0; 3]));
    assert_eq!(sample.measured.xyz, triple([0.0, 1.0, 0.0]));
    assert_eq!(sample.measured.raw, [1, 2, 3]);
    assert_eq!(sample.context.settle_ms, 250);
    assert_eq!(sample.context.border, Some(triple([0.2; 3])));
    assert!(sample.source.is_sweep());
    assert_eq!((sample.repeats, sample.elapsed_ms), (1, Some(7)));
    assert!(c.trials[0].requested.is_none());
}

#[test]
fn a_cancelled_session_keeps_what_it_has() {
    // During the countdown: nothing was begun.
    let (s, events) = run(config(&["srgb"]), accept, 0).unwrap();
    assert_eq!(kinds(&events), ["count"]);
    assert!(s.stopped && s.trials.is_empty());
    // After the first point of the sweep.
    let (s, events) = run(config(&["srgb", "srgb"]), accept, 6).unwrap();
    assert_eq!(kinds(&events), ["count", "count", "start", "outcome", "sample", "done"]);
    assert_eq!(s.trials.len(), 1);
    assert_eq!(s.trials[0].samples.len(), 1);
    assert!(s.stopped);
}

#[test]
fn probes_are_recorded_before_the_sweep() {
    let mut c = probed(config(&["srgb"]));
    c.prep_ms = 999;
    c.scatter = Some(ScatterRequest { count: 5, seed: 77 });
    let (s, events) = run(c, accept, usize::MAX).unwrap();
    let t = &s.trials[0];
    let g = t.gamut.as_ref().unwrap();
    // Eight corners and six face centres; every face is flat.
    assert_eq!((g.vertices.len(), g.patches.len()), (14, 6));
    assert!(g.patches.iter().all(|p| p.status == "flat"));
    assert_eq!(g.white_xyz, triple([0.0, 6.0, 0.0]));
    assert_eq!(t.samples.len(), 14 + 2 + 5);
    assert!(t.samples[..14].iter().all(|s| s.source == SampleSource::GamutProbe && s.repeats == 4));
    assert!(t.samples[14..].iter().all(|s| s.source == SampleSource::Sweep && s.repeats == 1));
    assert!(events
        .iter()
        .any(|e| matches!(e, GatherEvent::GamutProbed { index: 0, vertices: 14, folds: 0 })));
    // White comes first, and each vertex carries the code value of its sample.
    assert_eq!(t.samples[0].requested, triple([1.0; 3]));
    for (v, sample) in g.vertices.iter().zip(&t.samples) {
        assert_eq!((v.code_value, v.xyz), (sample.requested, sample.measured.xyz));
        // The reading of a grid point is the sum of its channels, in grid units.
        let n = |d: Double| f64::from_bits(d.bits);
        let code = v.code_value;
        assert_eq!(n(v.xyz.b), 2.0 * (n(code.a) + n(code.b) + n(code.c)));
    }
    for (cv, sample) in s.sweep.iter().zip(&t.samples[14..]) {
        let [r, g, b] = [cv.r, cv.g, cv.b].map(|f| f.num as f64 / f.den as f64);
        assert_eq!(sample.requested, triple([r, g, b]));
    }
    let run = s.into_capture(facts()).run.unwrap();
    assert_eq!(run.fast_integration_ms, Some(200));
    let probe = run.gamut_probe.unwrap();
    assert_eq!((probe.repeats, probe.max_depth), (4, 1));
    assert_eq!(probe.fold_eps, double(0.5));
    let drawn = run.scatter.unwrap();
    assert_eq!((drawn.count, drawn.seed), (5, 77));
}

#[test]
fn a_session_says_what_to_show() {
    let mut c = probed(config(&["srgb"]));
    c.prep_ms = 0;
    c.sequence = grey_ramp(11);
    let (mut s, _) = Session::start(c);
    assert_eq!(s.to_show(), None);
    s.begin_format(false);
    s.opened(accept(0, true)).unwrap();
    s.begin_probe(false);
    // White first, then the first corner of the first face.
    assert_eq!(s.to_show(), Some(triple([1.0; 3])));
    s.vertex_measured(reading(1.0), triple([0.0; 3]), 1, true);
    assert_eq!(s.to_show(), Some(triple([0.0; 3])));
    while let Task::Refine(step) = s.next() {
        match step {
            Step::Measure { .. } => {
                let shown = s.to_show();
                s.vertex_measured(reading(1.0), triple([0.0; 3]), 1, true);
                assert_eq!(s.samples.last().map(|x| x.requested), shown);
                assert_eq!(s.vertex_readings.last().map(|v| v.code_value), shown);
            }
            Step::JudgeCollapse { .. } => s.collapse_judged(false),
            Step::JudgeFlat { .. } => s.flat_judged(true),
            Step::Done => {
                assert_eq!(s.to_show(), None);
                s.finish_probe();
            }
        }
    }
    s.plan_sweep(|_| true);
    for k in 0..11 {
        assert_eq!(s.to_show(), Some(triple([k as f64 / 10.0; 3])));
        s.swept(Some(reading(0.0)));
        assert_eq!(s.samples.last().unwrap().requested, triple([k as f64 / 10.0; 3]));
    }
    assert_eq!(s.to_show(), None);
}

#[test]
fn scatter_is_constrained_by_a_probe_only() {
    let mut c = config(&["srgb"]);
    c.prep_ms = 0;
    c.scatter = Some(ScatterRequest { count: 5, seed: 77 });
    let (mut s, _) = Session::start(c);
    s.begin_format(false);
    s.opened(accept(0, true)).unwrap();
    s.plan_sweep(|_| false);
    let mut want = grey_ramp(2);
    want.extend(scatter(5, 77));
    assert_eq!(s.sweep, want);
    assert_eq!(want[1].r, Fraction { num: 1, den: 1 });

    let mut c = probed(config(&["srgb"]));
    c.prep_ms = 0;
    c.scatter = Some(ScatterRequest { count: 5, seed: 77 });
    let (mut s, _) = Session::start(c);
    s.begin_format(false);
    s.opened(accept(0, true)).unwrap();
    // A probe that is cancelled constrains nothing.
    s.begin_probe(true);
    s.plan_sweep(|_| false);
    assert_eq!(s.sweep, want);
}

#[test]
fn refused_formats_have_no_samples() {
    fn refuse(_: usize, _: bool) -> Attempt {
        Attempt::DescriptionFailed { cause: "unsupported".to_string(), message: "no".to_string() }
    }
    let (s, events) = run(config(&["srgb"]), refuse, usize::MAX).unwrap();
    assert_eq!(kinds(&events), ["count", "count", "start", "outcome", "done"]);
    let t = &s.trials[0];
    assert!(t.samples.is_empty());
    assert_eq!(t.pixel_format, "auto");
    match &t.outcome {
        Negotiation::Rejected { cause, message } => {
            assert_eq!((cause.as_str(), message.as_str()), ("unsupported", "no"));
        }
        other => panic!("{other:?}"),
    }
    assert!(matches!(
        rejection(&t.outcome),
        GatherError::FormatRejected { cause, .. } if cause == "unsupported"
    ));
    assert!(matches!(
        rejection(&Negotiation::Unmanaged),
        GatherError::FormatRejected { cause, message }
            if cause == "no_surface" && message == "format produced no surface"
    ));
}

#[test]
fn without_a_colour_manager_a_plain_buffer_is_shown() {
    fn plain(_: usize, managed: bool) -> Attempt {
        if managed {
            Attempt::NoColorManager
        } else {
            Attempt::Opened { state: None, buffer: BufferFormat::Xrgb8888 }
        }
    }
    let (s, _) = run(config(&["srgb"]), plain, usize::MAX).unwrap();
    assert!(matches!(s.trials[0].outcome, Negotiation::Unmanaged));
    assert_eq!(s.trials[0].pixel_format, "xrgb8888");
    assert_eq!(s.trials[0].samples.len(), 2);

    let fallback = |attempt| match judge_attempt(false, attempt) {
        Opening::Refused { outcome: Negotiation::Rejected { cause, message } } => {
            assert_eq!(cause, "unmanaged_fallback_failed");
            message
        }
        other => panic!("{other:?}"),
    };
    assert_eq!(fallback(Attempt::Failed { message: "gone".to_string() }), "gone");
    assert_eq!(
        fallback(Attempt::NoColorManager),
        "compositor doesn't advertise wp_color_manager_v1 (required for a managed format)"
    );
    assert_eq!(
        fallback(Attempt::DescriptionFailed { cause: "a".to_string(), message: "b".to_string() }),
        "compositor rejected our image description: a: b"
    );
}

#[test]
fn display_errors_end_a_session() {
    fn fail(_: usize, _: bool) -> Attempt {
        Attempt::Failed { message: "connection lost".to_string() }
    }
    match run(config(&["srgb"]), fail, usize::MAX) {
        Err(GatherError::Display(m)) => assert_eq!(m, "connection lost"),
        other => panic!("{other:?}"),
    }
}

#[test]
fn descriptions_that_are_not_ready() {
    let outcome = |state| {
        let attempt = Attempt::Opened { state, buffer: BufferFormat::Xrgb8888 };
        match judge_attempt(true, attempt) {
            Opening::Ready { outcome, .. } => outcome,
            other => panic!("{other:?}"),
        }
    };
    assert!(matches!(outcome(None), Negotiation::Unmanaged));
    assert!(matches!(outcome(Some(DescriptionState::Pending)), Negotiation::Unmanaged));
    let failed =
        DescriptionState::Failed { cause: "x".to_string(), message: "y".to_string() };
    assert!(matches!(outcome(Some(failed)), Negotiation::Rejected { .. }));
}

#[test]
fn no_formats_no_trials() {
    let mut c = config(&[]);
    c.prep_ms = 0;
    let (s, first) = Session::start(c);
    assert!(first.is_none());
    assert!(matches!(s.next(), Task::Finish));
    let mut f = facts();
    f.output = None;
    f.desktop = Some("niri".to_string());
    let capture = s.into_capture(f);
    assert!(capture.trials.is_empty());
    assert_eq!((capture.output.name.as_str(), capture.output.make.as_str()), ("DP-4", ""));
    assert_eq!(capture.compositor.desktop.as_deref(), Some("niri"));
}

#[test]
fn timestamps_are_rfc_3339() {
    for (seconds, text) in [
        (0, "1970-01-01T00:00:00Z"),
        (86399, "1970-01-01T23:59:59Z"),
        (951_782_400, "2000-02-29T00:00:00Z"),
        (1_000_000_000, "2001-09-09T01:46:40Z"),
        (1_779_624_000, "2026-05-24T12:00:00Z"),
        (4_107_542_400, "2100-03-01T00:00:00Z"),
        (13_569_465_600, "2400-01-01T00:00:00Z"),
    ] {
        assert_eq!(rfc3339_utc(seconds), text);
    }
    let d = date_of(146_097 * 3 + 59);
    assert_eq!((d.year, d.month, d.day), (3170, 3, 1));
}
