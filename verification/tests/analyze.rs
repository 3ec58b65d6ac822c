use tristim::analyze::{
    self, analyze_trial, anchor_y, ground_truth_for, reference_white, summarize, AnalyzedTrial,
    Chromaticity, ColorSpace, Expectation, GroundTruth, GroundTruthSource, Transfer,
};
use tristim::capture::{
    Capabilities, Capture, ColorDescription, CompositorInfo, DeviceInfo, FormatTrial, Measured,
    Negotiation, OutputInfo, Sample, SampleContext, SampleSource, ToolInfo,
};
use tristim::number::{Double, Pair, Triple};

// ---------------------------------------------------------------------------
// Colour arithmetic
// ---------------------------------------------------------------------------

fn double(v: f64) -> Double {
    Double { bits: v.to_bits() }
}

fn number(d: Double) -> f64 {
    f64::from_bits(d.bits)
}

fn triple(v: [f64; 3]) -> Triple {
    Triple { a: double(v[0]), b: double(v[1]), c: double(v[2]) }
}

fn numbers(t: Triple) -> [f64; 3] {
    [number(t.a), number(t.b), number(t.c)]
}

fn pair(v: [f64; 2]) -> Pair {
    Pair { a: double(v[0]), b: double(v[1]) }
}

fn coordinates(c: Chromaticity) -> [f64; 2] {
    [c.x as f64 / 10_000.0, c.y as f64 / 10_000.0]
}

fn xyz_of([x, y]: [f64; 2]) -> [f64; 3] {
    [x / y, 1.0, (1.0 - x - y) / y]
}

fn xy_of(xyz: [f64; 3]) -> Option<[f64; 2]> {
    let sum = xyz[0] + xyz[1] + xyz[2];
    if sum <= 0.0 {
        return None;
    }
    Some([xyz[0] / sum, xyz[1] / sum])
}

fn times(m: [[f64; 3]; 3], v: [f64; 3]) -> [f64; 3] {
    m.map(|r| r[0] * v[0] + r[1] * v[1] + r[2] * v[2])
}

fn determinant(c: [[f64; 3]; 3]) -> f64 {
    let [a, b, d] = c;
    a[0] * (b[1] * d[2] - b[2] * d[1]) - a[1] * (b[0] * d[2] - b[2] * d[0])
        + a[2] * (b[0] * d[1] - b[1] * d[0])
}

/// Linear RGB to XYZ: the primaries, weighted so that they add up to the white.
fn rgb_to_xyz(s: &ColorSpace) -> [[f64; 3]; 3] {
    let p = [s.red, s.green, s.blue].map(|c| xyz_of(coordinates(c)));
    let w = xyz_of(coordinates(s.white));
    let det = determinant(p);
    let weight = [0, 1, 2].map(|i| {
        let mut q = p;
        q[i] = w;
        determinant(q) / det
    });
    [0, 1, 2].map(|row| [0, 1, 2].map(|col| p[col][row] * weight[col]))
}

fn srgb_eotf(v: f64) -> f64 {
    if v <= 0.040_45 {
        v / 12.92
    } else {
        ((v + 0.055) / 1.055).powf(2.4)
    }
}

fn pq_eotf(v: f64) -> f64 {
    let vp = v.clamp(0.0, 1.0).powf(1.0 / (2523.0 / 4096.0 * 128.0));
    let num = (vp - 3424.0 / 4096.0).max(0.0);
    let den = 2413.0 / 4096.0 * 32.0 - 2392.0 / 4096.0 * 32.0 * vp;
    10_000.0 * (num / den).powf(16384.0 / 2610.0)
}

fn decode(t: &Transfer, v: f64) -> f64 {
    match t {
        Transfer::Srgb => srgb_eotf(v),
        Transfer::Pq => pq_eotf(v),
        Transfer::Bt1886 => v.max(0.0).powf(2.4),
        Transfer::Gamma22 => v.max(0.0).powf(2.2),
        Transfer::Gamma28 => v.max(0.0).powf(2.8),
    }
}

fn delta_uv(a: [f64; 2], b: [f64; 2]) -> f64 {
    let [a, b] = [a, b].map(|[x, y]| {
        let d = -2.0 * x + 12.0 * y + 3.0;
        [4.0 * x / d, 9.0 * y / d]
    });
    ((a[0] - b[0]).powi(2) + (a[1] - b[1]).powi(2)).sqrt()
}

fn lab(xyz: [f64; 3], white: [f64; 3]) -> [f64; 3] {
    let d: f64 = 6.0 / 29.0;
    let f = |t: f64| if t > d.powi(3) { t.cbrt() } else { t / (3.0 * d * d) + 4.0 / 29.0 };
    let [x, y, z] = [0, 1, 2].map(|i| f(xyz[i] / white[i]));
    [116.0 * y - 16.0, 500.0 * (x - y), 200.0 * (y - z)]
}

/// What a trial's encoding expects of its samples, and the white to fall back on.
fn expected(trial: &FormatTrial) -> (Triple, Vec<Expectation>) {
    let anchor = number(anchor_y(&trial.samples));
    let mut fallback = triple([0.0; 3]);
    let mut expectations = Vec::new();
    if let GroundTruth::Known { space, transfer, absolute, .. } = ground_truth_for(trial) {
        let w = xyz_of(coordinates(space.white)).map(|c| c * anchor.max(1.0));
        fallback = triple(w);
        let white = numbers(reference_white(&trial.samples).unwrap_or(fallback));
        let m = rgb_to_xyz(&space);
        for s in &trial.samples {
            let encoded = times(m, numbers(s.requested).map(|v| decode(&transfer, v)));
            let expected = if absolute { encoded } else { encoded.map(|c| c * anchor) };
            let measured = numbers(s.measured.xyz);
            let xy = xy_of(encoded);
            let (ml, el) = (lab(measured, white), lab(expected, white));
            let de = (0..3).map(|i| (ml[i] - el[i]).powi(2)).sum::<f64>().sqrt();
            let uv = match (s.measured.xy, xy) {
                (Some(p), Some(e)) => delta_uv([number(p.a), number(p.b)], e),
                _ => 0.0,
            };
            expectations.push(Expectation {
                expected_xy: xy.map(pair),
                expected_xyz: triple(expected),
                expected_y: double(encoded[1]),
                relative_y: double(measured[1] / anchor),
                delta_uv: double(uv),
                measured_lab: triple(ml),
                expected_lab: triple(el),
                delta_e: double(de),
            });
        }
    }
    (fallback, expectations)
}

fn analyze(trial: &FormatTrial) -> AnalyzedTrial {
    let (fallback, expectations) = expected(trial);
    analyze_trial(trial, fallback, &expectations)
}

// ---------------------------------------------------------------------------
// Trials
// ---------------------------------------------------------------------------

fn sample(requested: [f64; 3], xyz: [f64; 3]) -> Sample {
    Sample {
        requested: triple(requested),
        measured: Measured { raw: vec![], xyz: triple(xyz), xy: xy_of(xyz).map(pair) },
        context: SampleContext { window_fraction: double(1.0), border: None, settle_ms: 0 },
        source: SampleSource::Sweep,
        repeats: 1,
        adaptive_tier: None,
        elapsed_ms: None,
    }
}

fn described(transfer: &str, primaries: &str) -> Option<ColorDescription> {
    Some(ColorDescription {
        transfer_function: transfer.to_string(),
        render_intent: "perceptual".to_string(),
        primaries: primaries.to_string(),
        reference_white_nits: None,
        mastering: None,
    })
}

fn trial_with(
    requested: Option<ColorDescription>,
    pixel_format: &str,
    outcome: Negotiation,
    samples: Vec<Sample>,
) -> FormatTrial {
    FormatTrial { requested, pixel_format: pixel_format.to_string(), outcome, gamut: None, samples }
}

/// What a perfect sRGB display shows for a code value.
fn ideal_srgb(cv: [f64; 3], white_y: f64) -> [f64; 3] {
    times(rgb_to_xyz(&ColorSpace::srgb()), cv.map(srgb_eotf)).map(|c| c * white_y)
}

#[test]
fn perfect_srgb_scores_near_zero() {
    let white_y = 200.0;
    let cvs = [[1.0, 1.0, 1.0], [0.5, 0.5, 0.5], [1.0, 0.0, 0.0], [0.0, 0.0, 1.0]];
    let samples = cvs.iter().map(|&cv| sample(cv, ideal_srgb(cv, white_y))).collect();
    let trial = trial_with(None, "xrgb8888", Negotiation::Unmanaged, samples);
    let t = analyze(&trial);
    let s = t.summary.expect("scored");
    assert!(number(s.max_delta_uv) < 1e-6, "Δu'v' = {}", number(s.max_delta_uv));
    assert!(number(s.max_delta_e) < 1e-3, "ΔE = {}", number(s.max_delta_e));
    assert!(matches!(
        t.ground_truth,
        GroundTruth::Known { source: GroundTruthSource::AssumedSrgb, .. }
    ));
    assert_eq!(s.scored_samples, 4);
    assert_eq!(s.measured_white_y, t.samples[0].measured_xyz.b);
    assert_eq!(t.pixel_format, "xrgb8888");
}

#[test]
fn chromaticity_shift_is_detected() {
    // Measure red as if it were shifted toward orange.
    let white_y = 200.0;
    let mut red = ideal_srgb([1.0, 0.0, 0.0], white_y);
    // nudge it: add some green luminance, which pulls xy toward yellow
    red[1] += 5.0;
    let samples = vec![
        sample([1.0, 1.0, 1.0], ideal_srgb([1.0, 1.0, 1.0], white_y)),
        sample([1.0, 0.0, 0.0], red),
    ];
    let trial = trial_with(
        described("srgb", "srgb"),
        "xrgb8888",
        Negotiation::Accepted { identity: 1 },
        samples,
    );
    let t = analyze(&trial);
    let red_sample = &t.samples[1];
    assert!(number(red_sample.delta_uv.unwrap()) > 0.005, "should detect the shift");
}

#[test]
fn rejected_trial_is_unscored() {
    let trial = trial_with(
        described("st2084_pq", "bt2020"),
        "xbgr16161616f",
        Negotiation::Rejected { cause: "unsupported".to_string(), message: "no PQ".to_string() },
        vec![sample([1.0, 1.0, 1.0], [0.0, 0.0, 0.0])],
    );
    let t = analyze(&trial);
    assert!(matches!(&t.ground_truth, GroundTruth::Unscored { .. }));
    assert!(t.summary.is_none());
    assert!(t.samples[0].delta_uv.is_none());
    assert!(t.reference_white_xyz.is_none());
    match t.ground_truth {
        GroundTruth::Unscored { reason } => assert_eq!(reason, "rejected (unsupported: no PQ)"),
        _ => unreachable!(),
    }
}

#[test]
fn pq_luminance_is_absolute() {
    // PQ code 0.5081 is about 100 cd/m2. A perfect grey at that level: measured
    // Y should match expected absolute nits.
    let cv = 0.5081;
    let nits = pq_eotf(cv);
    let bt2020 = ColorSpace::from_name("bt2020").unwrap();
    let xyz = times(rgb_to_xyz(&bt2020), [nits, nits, nits]);
    let trial = trial_with(
        described("st2084_pq", "bt2020"),
        "xbgr16161616f",
        Negotiation::Accepted { identity: 1 },
        vec![sample([cv, cv, cv], xyz)],
    );
    let t = analyze(&trial);
    let lum = t.samples[0].luminance.unwrap();
    assert!(lum.absolute);
    let (expected, measured) = (number(lum.expected), number(lum.measured));
    assert!((expected - 100.0).abs() < 0.5, "expected about 100, got {expected}");
    assert!((measured - expected).abs() < 1e-6);
}

#[test]
fn from_name_known_and_unknown() {
    let bt2020 = ColorSpace {
        red: Chromaticity { x: 7080, y: 2920 },
        green: Chromaticity { x: 1700, y: 7970 },
        blue: Chromaticity { x: 1310, y: 460 },
        white: Chromaticity { x: 3127, y: 3290 },
    };
    assert_eq!(ColorSpace::from_name("bt2020"), Some(bt2020));
    assert!(ColorSpace::from_name("rec601").is_none());
}

#[test]
fn spaces_and_curves_by_name() {
    assert_eq!(ColorSpace::from_name("srgb"), Some(ColorSpace::srgb()));
    let p3 = ColorSpace::from_name("display_p3").unwrap();
    let dci = ColorSpace::from_name("dci_p3").unwrap();
    assert_eq!((p3.red, p3.green, p3.blue), (dci.red, dci.green, dci.blue));
    assert_eq!(dci.white, Chromaticity { x: 3140, y: 3510 });
    assert_eq!(ColorSpace::from_name("adobe_rgb").unwrap().green, Chromaticity { x: 2100, y: 7100 });
    assert!(matches!(Transfer::from_name("ext_srgb"), Some(Transfer::Srgb)));
    assert!(matches!(Transfer::from_name("st2084_pq"), Some(Transfer::Pq)));
    assert!(matches!(Transfer::from_name("bt1886"), Some(Transfer::Bt1886)));
    assert!(matches!(Transfer::from_name("gamma22"), Some(Transfer::Gamma22)));
    assert!(matches!(Transfer::from_name("gamma28"), Some(Transfer::Gamma28)));
    assert!(Transfer::from_name("nope").is_none());
}

fn reason(trial: &FormatTrial) -> String {
    match ground_truth_for(trial) {
        GroundTruth::Unscored { reason } => reason,
        other => panic!("{other:?}"),
    }
}

#[test]
fn unscored_trials_say_why() {
    let accepted = |d| trial_with(d, "x", Negotiation::Accepted { identity: 1 }, vec![]);
    assert_eq!(reason(&accepted(None)), "accepted but no description recorded");
    assert_eq!(
        reason(&accepted(described("srgb", "rec\"601"))),
        "unmapped primaries \"rec\\\"601\""
    );
    assert_eq!(
        reason(&accepted(described("ext_linear", "srgb"))),
        "unmapped transfer function \"ext_linear\""
    );
    // Without a description of its own the compositor shows sRGB.
    let unmanaged = trial_with(described("st2084_pq", "bt2020"), "x", Negotiation::Unmanaged, vec![]);
    assert!(matches!(
        ground_truth_for(&unmanaged),
        GroundTruth::Known { absolute: false, source: GroundTruthSource::AssumedSrgb, .. }
    ));
}

#[test]
fn black_trials_use_the_fallback_white() {
    let trial = trial_with(
        None,
        "x",
        Negotiation::Unmanaged,
        vec![sample([0.0; 3], [0.0; 3]), sample([0.0; 3], [-1.0, -2.0, -1.0])],
    );
    assert_eq!(number(anchor_y(&trial.samples)), 0.0);
    assert!(reference_white(&trial.samples).is_none());
    let t = analyze(&trial);
    let w = numbers(t.reference_white_xyz.unwrap());
    assert_eq!(w[1], 1.0);
    assert!((w[0] - 0.9505).abs() < 1e-3);
    // Neither chromaticity exists, and there is no light to compare with.
    assert!(t.samples[0].delta_uv.is_none());
    assert_eq!(number(t.samples[0].luminance.unwrap().measured), 0.0);
    assert!(t.summary.is_some());
}

#[test]
fn nothing_scored_has_no_summary() {
    assert!(summarize(&vec![], double(5.0)).is_none());
    let empty = trial_with(None, "x", Negotiation::Unmanaged, vec![]);
    let t = analyze(&empty);
    assert!(t.summary.is_none());
    assert!(t.samples.is_empty());
}

#[test]
fn captures_are_analyzed_trial_by_trial() {
    let text = |s: &str| s.to_string();
    let rejected = Negotiation::Rejected { cause: text("unsupported"), message: text("no") };
    let capture = Capture {
        schema_version: 5,
        timestamp: text("2026-05-24T12:00:00Z"),
        tool: ToolInfo { name: text("tristim"), version: text("0.1.0"), git_revision: None },
        device: DeviceInfo {
            product: text("Spyder 2024"),
            usb_pid: 0x0a0b,
            serial: text("87"),
            hw_version: (6, 0),
            cal_index: 3,
            calibration: None,
        },
        output: OutputInfo {
            name: text("DP-4"),
            make: text(""),
            model: text(""),
            description: text(""),
            mode: None,
        },
        capabilities: Capabilities::default(),
        compositor: CompositorInfo::default(),
        run: None,
        trials: vec![
            trial_with(None, "a", rejected, vec![sample([1.0; 3], [95.0, 100.0, 108.0])]),
            trial_with(
                None,
                "b",
                Negotiation::Unmanaged,
                vec![
                    sample([1.0; 3], ideal_srgb([1.0; 3], 100.0)),
                    sample([0.5, 0.0, 0.0], ideal_srgb([0.5, 0.0, 0.0], 100.0)),
                ],
            ),
        ],
    };
    let (fallbacks, expectations) = capture.trials.iter().map(expected).unzip();
    let analyzed = analyze::analyze(&capture, &fallbacks, &expectations);
    assert_eq!(analyzed.trials.len(), 2);
    assert_eq!(analyzed.trials[0].pixel_format, "a");
    assert!(analyzed.trials[0].summary.is_none());
    assert_eq!(analyzed.trials[0].samples.len(), 1);
    assert_eq!(analyzed.trials[1].pixel_format, "b");
    let summary = analyzed.trials[1].summary.as_ref().unwrap();
    assert_eq!(summary.scored_samples, 2);
    assert!(number(summary.max_delta_e) < 1e-6);
}
