use tristim::capture::export::{
    brightest, kword, ti3_white, to_csv, trial_to_ti3, SampleCells, Ti3Figures,
};
use tristim::capture::{
    is_one, is_perceptual, one, perceptual, AdaptiveTier, Capabilities, Capture, ColorDescription,
    CompositorInfo, DeviceInfo, FormatTrial, Measured, Negotiation, OutputInfo, Sample,
    SampleContext, SampleSource, ToolInfo, SCHEMA_VERSION,
};
use tristim::number::{Double, Pair, Triple};

fn double(v: f64) -> Double {
    Double { bits: v.to_bits() }
}

fn number(d: Double) -> f64 {
    f64::from_bits(d.bits)
}

fn triple(v: [f64; 3]) -> Triple {
    Triple { a: double(v[0]), b: double(v[1]), c: double(v[2]) }
}

fn numbers(t: Triple) -> [f64; 3] {
    [number(t.a), number(t.b), number(t.c)]
}

fn sample(requested: [f64; 3], xyz: [f64; 3]) -> Sample {
    Sample {
        requested: triple(requested),
        measured: Measured {
            raw: vec![1, 2, 3],
            xyz: triple(xyz),
            xy: Some(Pair { a: double(0.31), b: double(0.33) }),
        },
        context: SampleContext { window_fraction: double(1.0), border: None, settle_ms: 250 },
        source: SampleSource::Sweep,
        repeats: 1,
        adaptive_tier: None,
        elapsed_ms: Some(1000),
    }
}

fn capture_with_samples(samples: Vec<Sample>) -> Capture {
    Capture {
        schema_version: SCHEMA_VERSION,
        timestamp: "2026-05-24T12:00:00Z".to_string(),
        tool: ToolInfo {
            name: "tristim".to_string(),
            version: "0.1.0".to_string(),
            git_revision: Some("abc1234".to_string()),
        },
        device: DeviceInfo {
            product: "Spyder 2024".to_string(),
            usb_pid: 0x0a0b,
            serial: "87000216".to_string(),
            hw_version: (6, 0),
            cal_index: 0,
            calibration: None,
        },
        output: OutputInfo {
            name: "DP-4".to_string(),
            make: "ASUS".to_string(),
            model: "PG27UCDM".to_string(),
            description: "ASUS PG27UCDM".to_string(),
            mode: None,
        },
        capabilities: Capabilities::default(),
        compositor: CompositorInfo::default(),
        run: None,
        trials: vec![FormatTrial {
            requested: Some(ColorDescription {
                transfer_function: "st2084_pq".to_string(),
                render_intent: "perceptual".to_string(),
                primaries: "bt2020".to_string(),
                reference_white_nits: Some(double(203.0)),
                mastering: None,
            }),
            pixel_format: "xbgr16161616f".to_string(),
            outcome: Negotiation::Accepted { identity: 42 },
            gamut: None,
            samples,
        }],
    }
}

/// The printed numbers of a trial, normalized to its white.
fn figures(c: &Capture, trial: usize) -> Ti3Figures {
    let samples = match c.trials.get(trial) {
        Some(t) => &t.samples[..],
        None => &[],
    };
    let white = match ti3_white(c, trial) {
        Some(i) => numbers(samples[i].measured.xyz),
        None => [0.0, 1.0, 0.0],
    };
    let nn = 100.0 / white[1];
    Ti3Figures {
        luminance: format!("{:.6} {:.6} {:.6}", white[0], white[1], white[2]),
        rows: samples
            .iter()
            .map(|s| {
                let r = numbers(s.requested);
                let m = numbers(s.measured.xyz);
                format!(
                    "{:.5} {:.5} {:.5} {:.6} {:.6} {:.6}",
                    100.0 * r[0],
                    100.0 * r[1],
                    100.0 * r[2],
                    nn * m[0],
                    nn * m[1],
                    nn * m[2]
                )
            })
            .collect(),
    }
}

fn ti3(c: &Capture, trial: usize) -> Option<String> {
    trial_to_ti3(c, trial, &figures(c, trial))
}

fn cells(s: &Sample) -> SampleCells {
    let six = |v: Double| format!("{:.6}", number(v));
    let (xy_x, xy_y) = match s.measured.xy {
        Some(xy) => (six(xy.a), six(xy.b)),
        None => (String::new(), String::new()),
    };
    SampleCells {
        window_fraction: format!("{}", number(s.context.window_fraction)),
        req_r: six(s.requested.a),
        req_g: six(s.requested.b),
        req_b: six(s.requested.c),
        xyz_x: six(s.measured.xyz.a),
        xyz_y: six(s.measured.xyz.b),
        xyz_z: six(s.measured.xyz.c),
        xy_x,
        xy_y,
    }
}

fn csv(c: &Capture) -> String {
    let cells: Vec<Vec<SampleCells>> =
        c.trials.iter().map(|t| t.samples.iter().map(cells).collect()).collect();
    to_csv(c, &cells)
}

#[test]
fn ti3_normalizes_to_white_and_records_absolute_luminance() {
    let c = capture_with_samples(vec![
        sample([1.0, 1.0, 1.0], [190.0, 200.0, 210.0]),
        sample([0.5, 0.5, 0.5], [38.0, 40.0, 42.0]),
    ]);
    let ti3 = ti3(&c, 0).expect("exportable");
    assert!(ti3.starts_with("CTI3   \n\n"));
    assert!(ti3.contains("LUMINANCE_XYZ_CDM2 \"190.000000 200.000000 210.000000\""));
    assert!(ti3.contains("NORMALIZED_TO_Y_100 \"YES\""));
    assert!(ti3.contains("NUMBER_OF_SETS 2"));
    // White row normalizes to Y = 100; the half patch to Y = 20.
    assert!(ti3.contains("1 100.00000 100.00000 100.00000 95.000000 100.000000 105.000000"));
    assert!(ti3.contains("2 50.00000 50.00000 50.00000 19.000000 20.000000 21.000000"));
}

#[test]
fn ti3_falls_back_to_brightest_sample_without_a_white_patch() {
    let c = capture_with_samples(vec![
        sample([0.25, 0.25, 0.25], [9.5, 10.0, 10.5]),
        sample([0.75, 0.75, 0.75], [95.0, 100.0, 105.0]),
    ]);
    let ti3 = ti3(&c, 0).expect("exportable");
    assert!(ti3.contains("LUMINANCE_XYZ_CDM2 \"95.000000 100.000000 105.000000\""));
}

#[test]
fn ti3_refuses_empty_or_black_trials() {
    let c = capture_with_samples(vec![]);
    assert!(ti3(&c, 0).is_none());
    assert!(ti3(&c, 99).is_none());
    let c = capture_with_samples(vec![sample([1.0, 1.0, 1.0], [0.0, 0.0, 0.0])]);
    assert!(ti3(&c, 0).is_none());
}

#[test]
fn csv_emits_one_row_per_sample_with_stable_columns() {
    let c = capture_with_samples(vec![
        sample([1.0, 1.0, 1.0], [190.0, 200.0, 210.0]),
        sample([0.0, 0.0, 0.0], [0.1, 0.1, 0.1]),
    ]);
    let csv = csv(&c);
    let lines: Vec<&str> = csv.lines().collect();
    assert_eq!(lines.len(), 3); // header + 2 samples
    let cols = lines[0].split(',').count();
    for l in &lines[1..] {
        assert_eq!(l.split(',').count(), cols, "ragged row: {l}");
    }
    assert!(lines[1].contains("xbgr16161616f"));
    assert!(lines[1].contains("1;2;3"));
    assert!(lines[1].ends_with("1;2;3"));
}

#[test]
fn the_whole_ti3_file() {
    let c = capture_with_samples(vec![sample([1.0, 1.0, 1.0], [190.0, 200.0, 210.0])]);
    assert_eq!(
        ti3(&c, 0).unwrap(),
        "CTI3   \n\n\
         DESCRIPTOR \"tristim measurement of DP-4 (st2084_pq / bt2020, xbgr16161616f)\"\n\
         ORIGINATOR \"tristim 0.1.0\"\n\
         CREATED \"2026-05-24T12:00:00Z\"\n\
         DEVICE_CLASS \"DISPLAY\"\n\
         TARGET_INSTRUMENT \"Spyder 2024\"\n\
         INSTRUMENT_TYPE_SPECTRAL \"NO\"\n\
         COLOR_REP \"RGB_XYZ\"\n\
         LUMINANCE_XYZ_CDM2 \"190.000000 200.000000 210.000000\"\n\
         NORMALIZED_TO_Y_100 \"YES\"\n\
         \nNUMBER_OF_FIELDS 7\nBEGIN_DATA_FORMAT\n\
         SAMPLE_ID RGB_R RGB_G RGB_B XYZ_X XYZ_Y XYZ_Z \nEND_DATA_FORMAT\n\
         \nNUMBER_OF_SETS 1\nBEGIN_DATA\n\
         1 100.00000 100.00000 100.00000 95.000000 100.000000 105.000000\n\
         END_DATA\n"
    );
    let mut c = c;
    c.trials[0].requested = None;
    assert!(ti3(&c, 0).unwrap().contains("of DP-4 (unmanaged, xbgr16161616f)"));
}

#[test]
fn whites_are_near_one() {
    let near = 1.0 - 5e-10;
    let c = capture_with_samples(vec![
        sample([0.5, 1.0, 1.0], [1.0, 900.0, 1.0]),
        sample([near, 1.0, 1.0], [1.0, 20.0, 1.0]),
        sample([1.0, 1.0, 1.0], [1.0, 30.0, 1.0]),
    ]);
    assert_eq!(ti3_white(&c, 0), Some(1));
    for (v, white) in [
        (1.0 + 5e-10, true),
        (1.0 + 1e-9, false),
        (1.0 - 1e-9, (1.0f64 - 1e-9 - 1.0).abs() < 1e-9),
        (1.0 - 2e-9, false),
        (0.0, false),
        (f64::NAN, false),
    ] {
        let c = capture_with_samples(vec![
            sample([v, v, v], [1.0, 20.0, 1.0]),
            sample([0.5, 0.5, 0.5], [1.0, 90.0, 1.0]),
        ]);
        assert_eq!(ti3_white(&c, 0), Some(if white { 0 } else { 1 }), "{v:e}");
    }
}

/// Of samples that are equally bright the last counts.
#[test]
fn the_last_of_the_brightest() {
    let s = |y: f64| sample([0.5, 0.5, 0.5], [0.0, y, 0.0]);
    assert_eq!(brightest(&vec![]), None);
    assert_eq!(brightest(&vec![s(1.0), s(3.0), s(3.0), s(2.0)]), Some(2));
    assert_eq!(brightest(&vec![s(-1.0), s(-0.0), s(0.0), s(-0.0)]), Some(2));
    assert_eq!(brightest(&vec![s(1e9), s(f64::NAN), s(f64::INFINITY)]), Some(1));
}

#[test]
fn the_whole_csv_row() {
    let mut s = sample([1.0, 0.5, 0.0], [190.0, 200.0, 210.0]);
    s.source = SampleSource::GamutProbe;
    s.repeats = 4;
    s.adaptive_tier = Some(AdaptiveTier::EscalatedFull);
    let mut black = sample([0.0, 0.0, 0.0], [0.0, 0.0, 0.0]);
    black.measured.xy = None;
    black.measured.raw = vec![];
    black.elapsed_ms = None;
    let mut c = capture_with_samples(vec![s]);
    c.trials.push(FormatTrial {
        requested: None,
        pixel_format: "xrgb8888".to_string(),
        outcome: Negotiation::Unmanaged,
        gamut: None,
        samples: vec![black],
    });
    assert_eq!(
        csv(&c),
        "trial,pixel_format,transfer_function,primaries,outcome,source,repeats,\
         adaptive_tier,elapsed_ms,window_fraction,settle_ms,\
         req_r,req_g,req_b,xyz_x,xyz_y,xyz_z,xy_x,xy_y,raw\n\
         0,xbgr16161616f,st2084_pq,bt2020,accepted,gamut_probe,4,escalated_full,1000,1,250,\
         1.000000,0.500000,0.000000,190.000000,200.000000,210.000000,0.310000,0.330000,1;2;3\n\
         1,xrgb8888,,,unmanaged,sweep,1,,,1,250,\
         0.000000,0.000000,0.000000,0.000000,0.000000,0.000000,,,\n"
    );
}

#[test]
fn names_and_defaults() {
    let refused =
        Negotiation::Rejected { cause: "unsupported".to_string(), message: "no".to_string() };
    assert_eq!(refused.status(), "rejected");
    assert_eq!(AdaptiveTier::Fast.as_str(), "fast");
    assert_eq!(AdaptiveTier::SingleFull.as_str(), "single_full");
    assert!(SampleSource::default().is_sweep());
    assert!(!SampleSource::GamutProbe.is_sweep());
    assert!(is_one(&one()) && !is_one(&2));
    assert!(is_perceptual(&perceptual()) && !is_perceptual("absolute"));
    let mut line = String::from("x");
    kword(&mut line, "A", "b c");
    assert_eq!(line, "xA \"b c\"\n");
}
