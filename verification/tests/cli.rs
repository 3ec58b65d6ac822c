use tristim::analyze::{ColorSpace, GroundTruth, GroundTruthSource, Transfer};
use tristim::capture::{
    Capabilities, Capture, CompositorInfo, DeviceInfo, FormatTrial, Measured, Negotiation,
    OutputInfo, OutputMode, Sample, SampleContext, SampleSource, ToolInfo,
};
use tristim::cli::args::{
    abbrev, arg_value, capture_formats, capture_sequences, collect_values, command_of, first_operand,
    has_flag, integration_times, parse_f64_list, parse_fast_ms, parse_levels, parse_opt, parse_rgb,
    parse_usize_list, scatter_fits, speed_modes, speed_repeats, Command,
};
use tristim::cli::commands::{
    capture_args, characterize_args, gamut_args, integration_args, report_args, speed_args,
    sweep_args,
};
use tristim::cli::log::{
    countdown_line, device_line, event_line, outcome_line, probe_line, PointFigures, SampleFigures,
};
use tristim::cli::report::{
    additivity_descriptor, basis, burst_flags, capture_line, delta_uv_descriptor, duv_verdict,
    fmt_flags, fmt_tier, gamma_descriptor, management_line, order_worst, trial_heading, worst,
};
use tristim::driver::colorimeter::AdaptiveTier;
use tristim::driver::confidence::TrustFlag;
use tristim::gather::gamut::GridPoint;
use tristim::gather::probe::GamutEvent;
use tristim::gather::sequence::{grey_ramp, SCATTER_SEED};
use tristim::gather::session::GatherEvent;
use tristim::number::{Double, Triple};

fn double(v: f64) -> Double {
    Double { bits: v.to_bits() }
}

fn words(s: &str) -> Vec<String> {
    s.split_whitespace().map(|w| w.to_string()).collect()
}

fn texts(v: &[&str]) -> Vec<String> {
    v.iter().map(|w| w.to_string()).collect()
}

// ---------------------------------------------------------------------------
// Arguments
// ---------------------------------------------------------------------------

#[test]
fn subcommands_and_their_other_names() {
    let of = |s: &str| command_of(&words(s));
    assert!(matches!(of("tristim"), Command::Help));
    assert!(matches!(of("tristim -h"), Command::Help));
    for name in ["list-outputs", "outputs", "ls"] {
        assert!(matches!(of(&format!("tristim {name}")), Command::ListOutputs));
    }
    assert!(matches!(of("tristim info"), Command::Info));
    assert!(matches!(of("tristim measure --cal 1"), Command::Measure));
    assert!(matches!(of("tristim char"), Command::Characterize));
    assert!(matches!(of("tristim speed"), Command::Speed));
    assert!(matches!(of("tristim integration"), Command::Integration));
    assert!(matches!(of("tristim gamut"), Command::Gamut));
    assert!(matches!(of("tristim capture"), Command::Capture));
    assert!(matches!(of("tristim report x"), Command::Report));
    assert!(matches!(of("tristim sweep"), Command::Sweep));
    assert!(matches!(of("tristim analyse"), Command::Analyze));
    match of("tristim Info") {
        Command::Unknown(name) => assert_eq!(name, "Info"),
        other => panic!("{other:?}"),
    }
}

#[test]
fn flags_and_their_values() {
    let args = words("--format srgb --seq grey --format --seq x --cal");
    assert_eq!(arg_value(&args, "--seq").unwrap(), "grey");
    assert_eq!(arg_value(&args, "--format").unwrap(), "srgb");
    assert_eq!(arg_value(&args, "--cal"), None);
    assert_eq!(arg_value(&args, "--out"), None);
    assert!(has_flag(&args, "--cal") && !has_flag(&args, "--out"));
    // A value is taken as it stands, and is not looked at again.
    assert_eq!(collect_values(&args, "--format"), ["srgb", "--seq"]);
    assert_eq!(collect_values(&args, "--seq"), ["grey", "x"]);
    assert!(collect_values(&args, "--cal").is_empty());
    assert_eq!(first_operand(&words("--top FILE x")), Some(1));
    assert_eq!(first_operand(&words("--top --x")), None);
}

#[test]
fn numbers_fall_back_to_their_defaults() {
    let args = words("--cal 256 --repeats +7 --settle-ms -1 --prep-secs x");
    assert_eq!(parse_opt(&args, "--cal", 0, 255), 0);
    assert_eq!(parse_opt(&args, "--cal", 0, 256), 256);
    assert_eq!(parse_opt(&args, "--repeats", 16, 1000), 7);
    assert_eq!(parse_opt(&args, "--settle-ms", 250, u64::MAX), 250);
    assert_eq!(parse_opt(&args, "--prep-secs", 6, u64::MAX), 6);
    assert_eq!(parse_opt(&args, "--top", 8, u64::MAX), 8);
    assert_eq!(parse_fast_ms(&words("--fast 200"), "--fast"), Ok(Some(200)));
    assert_eq!(parse_fast_ms(&words("--slow 200"), "--fast"), Ok(None));
    assert_eq!(
        parse_fast_ms(&words("--fast 65536"), "--fast").unwrap_err(),
        "--fast: expected integer ms"
    );
}

#[test]
fn lists_of_numbers() {
    assert_eq!(parse_usize_list(" 1, 2 ,30").unwrap(), [1, 2, 30]);
    assert_eq!(parse_usize_list("1,x").unwrap_err(), "bad integer \"x\" in list \"1,x\"");
    assert_eq!(parse_usize_list("").unwrap_err(), "bad integer \"\" in list \"\"");
    assert_eq!(parse_f64_list("1.0, 2e-3,inf").unwrap(), ["1.0", "2e-3", "inf"]);
    assert_eq!(parse_f64_list("1,\t-").unwrap_err(), "bad number \"\\t-\" in list \"1,\\t-\"");
    assert_eq!(parse_levels("0,0.5").unwrap(), ["0", "0.5"]);
    assert_eq!(
        parse_levels("0,,").unwrap_err(),
        "bad --levels list \"0,,\" (expected comma-separated numbers)"
    );
    assert_eq!(parse_rgb("0, .5 ,1.").unwrap(), ["0", ".5", "1."]);
    assert_eq!(parse_rgb("0,1").unwrap_err(), "expected R,G,B (three values), got \"0,1\"");
    assert_eq!(parse_rgb("0,1,red").unwrap_err(), "bad RGB triple \"0,1,red\"");
}

#[test]
fn repeats_are_sorted_and_capped() {
    assert_eq!(speed_repeats(&vec![8, 1, 0, 4, 8, 99, 16], 16).unwrap(), [1, 4, 8, 16]);
    assert_eq!(
        speed_repeats(&vec![0, 9], 8).unwrap_err(),
        "--repeats: no valid N values (must be 1..=8)"
    );
    assert_eq!(speed_modes("both").unwrap(), [true, false]);
    assert_eq!(speed_modes("auto").unwrap(), [true]);
    assert_eq!(speed_modes("burst").unwrap(), [false]);
    assert_eq!(
        speed_modes("slow").unwrap_err(),
        "--mode: expected auto-zero|burst|both, got \"slow\""
    );
    assert_eq!(integration_times(&vec![0, 714, 65535, 65536]), [0, 714, 65535, 65535]);
}

#[test]
fn sequences_of_a_capture() {
    let plan = capture_sequences(&texts(&["grey:3", "scatter:4", "scatter:2"])).unwrap();
    assert_eq!(plan.sequence, grey_ramp(3));
    let s = plan.scatter.unwrap();
    assert_eq!((s.count, s.seed), (6, SCATTER_SEED));
    let plan = capture_sequences(&texts(&["scatter:0"])).unwrap();
    assert!(plan.scatter.is_none() && plan.sequence.is_empty());
    assert!(capture_sequences(&texts(&["grey:3", "nope"])).is_err());
    assert!(scatter_fits(&texts(&["scatter:18446744073709551615"])));
    assert!(!scatter_fits(&texts(&["scatter:18446744073709551615", "scatter:1"])));
    assert_eq!(capture_formats(&texts(&["srgb", "pq-p3"])).unwrap().len(), 2);
    assert!(capture_formats(&texts(&["srgb", "nope"])).is_err());
}

#[test]
fn names_are_cut_short() {
    assert_eq!(abbrev("ten_chars_", 10), "ten_chars_");
    assert_eq!(abbrev("eleven_char", 10), "eleven_ch\u{2026}");
    assert_eq!(abbrev("\u{e9}\u{e9}\u{e9}", 5), "\u{e9}\u{e9}\u{2026}");
}

// ---------------------------------------------------------------------------
// Subcommands
// ---------------------------------------------------------------------------

#[test]
fn arguments_of_characterize() {
    let a = characterize_args(&words("--output DP-4 --repeats 3 --raw")).unwrap();
    assert_eq!(a.output, "DP-4");
    assert_eq!((a.cal_index, a.repeats, a.settle_ms, a.prep_secs), (0, 3, 400, 6));
    assert!(a.verbose && !a.burst && a.levels.is_none());
    let a = characterize_args(&words("--output DP-4 --burst --levels 0,1")).unwrap();
    assert!(a.burst && !a.verbose);
    assert_eq!(a.levels.unwrap(), ["0", "1"]);
    assert_eq!(
        characterize_args(&words("--cal 1")).unwrap_err(),
        "--output NAME is required (try `tristim list-outputs`)"
    );
    assert!(characterize_args(&words("--output DP-4 --levels x")).is_err());
}

#[test]
fn arguments_of_speed() {
    let a = speed_args(&words("--output DP-4 --shots 4")).unwrap();
    assert_eq!(a.shots, 4);
    assert_eq!(a.repeats, [1, 2, 4]);
    assert_eq!(a.modes, [true, false]);
    assert!(a.levels.is_none());
    assert!(speed_args(&words("--output DP-4 --shots 0")).is_err());
    assert!(speed_args(&words("--output DP-4 --mode x")).is_err());
    assert!(speed_args(&words("--output DP-4 --repeats x")).is_err());
    assert!(speed_args(&words("--output DP-4 --levels x")).is_err());
}

#[test]
fn arguments_of_integration() {
    let a = integration_args(&words("--output DP-4 --integrations 100,70000 --level .5")).unwrap();
    assert_eq!(a.integrations, [100, 65535]);
    assert_eq!(a.level.unwrap(), ".5");
    assert_eq!((a.repeats, a.settle_ms), (8, 400));
    // A level that is no number is left out.
    let a = integration_args(&words("--output DP-4 --integrations 100 --level x")).unwrap();
    assert!(a.level.is_none());
    assert_eq!(
        integration_args(&words("--output DP-4")).unwrap_err(),
        "--integrations LIST is required (e.g. --integrations 100,300,714)"
    );
}

#[test]
fn arguments_of_gamut() {
    let a = gamut_args(&words("--output DP-4 --format srgb --border 0,0,1 --refine")).unwrap();
    assert_eq!(a.format_spec, "srgb");
    assert_eq!(a.format.token(), "srgb");
    assert_eq!(a.border.unwrap(), ["0", "0", "1"]);
    assert!(a.refine && a.window.is_none() && a.fast_integration_ms.is_none());
    assert_eq!((a.repeats, a.settle_ms, a.max_depth), (4, 250, 3));
    assert_eq!(
        gamut_args(&words("--output DP-4")).unwrap_err(),
        "--format SPEC is required (see `tristim help`)"
    );
    assert!(gamut_args(&words("--output DP-4 --format nope")).is_err());
    assert!(gamut_args(&words("--output DP-4 --format srgb --border 0")).is_err());
    assert!(gamut_args(&words("--output DP-4 --format srgb --fast-integration x")).is_err());
}

#[test]
fn arguments_of_capture() {
    let a = capture_args(&words(
        "--output DP-4 --format unmanaged --format srgb --seq grey:3 --window 0.1 --probe-gamut \
         --gamut-max-depth 2 --gamut-fast-integration 200",
    ))
    .unwrap();
    assert_eq!(a.out_path, "capture.json");
    assert_eq!(a.formats.len(), 2);
    assert_eq!(a.plan.sequence.len(), 3);
    assert_eq!(a.window.unwrap(), "0.1");
    let g = a.gamut.unwrap();
    assert_eq!((g.repeats, g.fast_integration_ms, g.max_depth), (4, Some(200), 2));
    let a = capture_args(&words("--output DP-4 --format srgb --seq grey")).unwrap();
    assert!(a.gamut.is_none() && a.border.is_none());
    assert_eq!(
        capture_args(&words("--output DP-4 --seq grey")).unwrap_err(),
        "at least one --format is required (see `tristim help`)"
    );
    assert_eq!(
        capture_args(&words("--output DP-4 --format srgb")).unwrap_err(),
        "at least one --seq is required (see `tristim help`)"
    );
    assert_eq!(
        capture_args(&words(
            "--output DP-4 --format srgb --seq grey --probe-gamut --gamut-fast-integration x"
        ))
        .unwrap_err(),
        "--gamut-fast-integration: expected integer ms"
    );
}

#[test]
fn arguments_of_report_and_sweep() {
    let a = report_args(&words("--json FILE.json --top 3")).unwrap();
    assert_eq!((a.path.as_str(), a.top), ("FILE.json", 3));
    assert_eq!(
        report_args(&words("--top")).unwrap_err(),
        "usage: tristim report FILE.json [--top N]"
    );
    let a = sweep_args(&words("--output DP-4 --grey-steps 5")).unwrap();
    assert_eq!((a.out_path.as_str(), a.grey_steps, a.settle_ms), ("sweep.csv", 5, 250));
    assert!(sweep_args(&words("--grey-steps 5")).is_err());
}

// ---------------------------------------------------------------------------
// Progress
// ---------------------------------------------------------------------------

fn sample(repeats: u32) -> Sample {
    let t = Triple { a: double(0.0), b: double(0.0), c: double(0.0) };
    Sample {
        requested: t,
        measured: Measured { raw: vec![], xyz: t, xy: None },
        context: SampleContext { window_fraction: double(1.0), border: None, settle_ms: 0 },
        source: SampleSource::Sweep,
        repeats,
        adaptive_tier: None,
        elapsed_ms: None,
    }
}

#[test]
fn events_are_worded() {
    let f = SampleFigures {
        code_value: "1.000,0.500,0.000".to_string(),
        x: "1.0".to_string(),
        y: "2.0".to_string(),
        z: "3.0".to_string(),
    };
    let line = |ev: GatherEvent| event_line(&ev, &f).unwrap();
    assert_eq!(device_line("Spyder 2024", "87", (6, 5)), "Spyder 2024 SN 87 HW 6.05");
    assert_eq!(
        line(GatherEvent::DeviceReady {
            product: "SpyderX2".to_string(),
            serial: "1".to_string(),
            hw_version: (6, 12)
        }),
        "SpyderX2 SN 1 HW 6.12"
    );
    assert_eq!(countdown_line(3), "  starting in 3s...");
    assert_eq!(
        line(GatherEvent::FormatStart {
            index: 0,
            total: 1,
            token: "srgb".to_string(),
            pixel_format: "auto".to_string(),
            requested: None
        }),
        "\u{2500}\u{2500} format srgb (auto) \u{2500}\u{2500}"
    );
    let refused =
        Negotiation::Rejected { cause: "unsupported".to_string(), message: "no".to_string() };
    assert_eq!(outcome_line(&refused, "  rejected: "), "  rejected: unsupported: no");
    assert_eq!(
        line(GatherEvent::Negotiation(refused)),
        "  compositor rejected this format: unsupported: no"
    );
    assert_eq!(
        line(GatherEvent::Negotiation(Negotiation::Accepted { identity: 9 })),
        "  accepted (identity 9)"
    );
    assert_eq!(
        outcome_line(&Negotiation::Unmanaged, ""),
        "  unmanaged buffer (assumed sRGB)"
    );
    assert_eq!(
        line(GatherEvent::ProbeSample { format_index: 0, sample: sample(4) }),
        "  [probe] cv=(1.000,0.500,0.000) -> Y=2.0 (\u{d7}4)"
    );
    assert_eq!(
        line(GatherEvent::GamutProbed { index: 0, vertices: 98, folds: 2 }),
        "  gamut probed: 98 vertices, 2 folds (clamped)"
    );
    assert_eq!(
        line(GatherEvent::Sample { format_index: 0, index: 6, total: 20, sample: sample(1) }),
        "  [  7/20] cv=(1.000,0.500,0.000) -> X=1.0 Y=2.0 Z=3.0"
    );
    assert!(event_line(&GatherEvent::FormatDone { index: 0, samples: 0 }, &f).is_none());
}

// ---------------------------------------------------------------------------
// Reports
// ---------------------------------------------------------------------------

#[test]
fn the_worst_come_first() {
    let scores: Vec<Option<Double>> = [Some(1.0), None, Some(3.0), Some(1.0), Some(f64::NAN)]
        .iter()
        .map(|s| s.map(double))
        .collect();
    assert_eq!(order_worst(&scores), [4, 2, 0, 3]);
    assert_eq!(worst(&scores, 2), [4, 2]);
    assert_eq!(worst(&scores, 9).len(), 4);
    assert!(order_worst(&vec![None]).is_empty());
}

#[test]
fn thresholds_of_the_verdicts() {
    let v = |d: f64| duv_verdict(double(d));
    assert_eq!(
        [v(0.0049), v(0.005), v(0.015), v(0.03), v(f64::NAN)],
        ["(imperceptible)", "(perceptible)", "(obvious)", "(severe)", "(severe)"]
    );
    let w = |d: f64| delta_uv_descriptor(double(d));
    assert_eq!(
        [w(0.0029), w(0.003), w(0.008), w(0.015), w(0.03)],
        [
            "(on-target)",
            "(close to D65)",
            "(visibly off D65)",
            "(obviously off D65)",
            "(dramatically off D65)"
        ]
    );
    let g = |g: f64| gamma_descriptor(double(g), double((g - 2.2).abs()));
    assert_eq!(g(2.24), "(sRGB / BT.709 nominal)");
    assert_eq!(g(2.4), "(steeper than sRGB \u{2014} mids darker than ideal)");
    assert_eq!(g(1.9), "(flatter than sRGB \u{2014} mids brighter than ideal)");
    assert_eq!([g(2.5), g(1.8), g(f64::NAN)], ["(unusual)"; 3]);
    let a = |d: f64| additivity_descriptor(double(d));
    assert_eq!([a(0.029), a(0.03)], ["(good)", "(ok)"]);
    assert_eq!(a(0.06), "(suspect \u{2014} nonlinearity or stray light)");
}

#[test]
fn labels_of_a_report() {
    let flags = vec![TrustFlag::Floor, TrustFlag::Noisy, TrustFlag::Chroma];
    assert_eq!(fmt_flags(&flags), "FLOOR,NOISY,DUV");
    assert_eq!(fmt_flags(&vec![]), "ok");
    assert_eq!(burst_flags(1, &flags), "quant-only");
    assert_eq!(burst_flags(2, &vec![TrustFlag::Noisy]), "NOISY");
    assert_eq!(fmt_tier(AdaptiveTier::Fast), " [fast]");
    assert_eq!(fmt_tier(AdaptiveTier::EscalatedFull), " [esc]");
    assert_eq!(fmt_tier(AdaptiveTier::SingleFull), "");
    let unscored = GroundTruth::Unscored { reason: "why".to_string() };
    assert_eq!(basis(&unscored), "unscored \u{2014} why");
    let known = |source: GroundTruthSource| GroundTruth::Known {
        space: ColorSpace::srgb(),
        transfer: Transfer::Srgb,
        transfer_name: "srgb".to_string(),
        absolute: false,
        source,
    };
    assert_eq!(basis(&known(GroundTruthSource::Negotiated)), "negotiated");
    assert_eq!(basis(&known(GroundTruthSource::AssumedSrgb)), "assumed sRGB");
}

#[test]
fn probes_are_worded() {
    let f = PointFigures {
        code_value: "1.000,0.000,0.500".to_string(),
        y: "  12.345".to_string(),
        xy: "(0.640,0.330)".to_string(),
    };
    let at = GridPoint { r: 2, g: 0, b: 1 };
    let measured = Triple { a: double(0.0), b: double(12.345), c: double(0.0) };
    let point = GamutEvent::Point {
        index: 1,
        total: 14,
        label: "red",
        code_value: at,
        measured,
        flags: vec![TrustFlag::Chroma],
    };
    assert_eq!(
        probe_line(&point, &f, AdaptiveTier::EscalatedFull),
        "  [ 2/14]      red  Y=  12.345  xy=(0.640,0.330)  DUV [esc]"
    );
    let refined = GamutEvent::Measured { index: 9, code_value: at, measured, flags: vec![] };
    assert_eq!(
        probe_line(&refined, &f, AdaptiveTier::SingleFull),
        "  [ 10] (1.000,0.000,0.500)  Y=  12.345  xy=(0.640,0.330)  ok"
    );
    let line = |ev: GamutEvent| probe_line(&ev, &f, AdaptiveTier::SingleFull);
    assert_eq!(line(GamutEvent::Countdown { remaining: 2 }), "  starting in 2s...");
    let refused = Negotiation::Rejected { cause: "a".to_string(), message: "b".to_string() };
    assert_eq!(line(GamutEvent::Negotiation(refused)), "  rejected: a: b");
    let ready = GamutEvent::DeviceReady {
        product: "SpyderX2".to_string(),
        serial: "1".to_string(),
        hw_version: (5, 5),
    };
    assert_eq!(line(ready), "SpyderX2 SN 1 HW 5.05");
}

#[test]
fn captures_are_introduced() {
    let text = |s: &str| s.to_string();
    let mut c = Capture {
        schema_version: 5,
        timestamp: text("2026-05-24T12:00:00Z"),
        tool: ToolInfo { name: text("tristim"), version: text("0.1.0"), git_revision: None },
        device: DeviceInfo {
            product: text("Spyder 2024"),
            usb_pid: 0x0a0b,
            serial: text("87"),
            hw_version: (6, 0),
            cal_index: 3,
            calibration: None,
        },
        output: OutputInfo {
            name: text("DP-4"),
            make: text(""),
            model: text(""),
            description: text(""),
            mode: Some(OutputMode { width: 3840, height: -1, refresh_mhz: None }),
        },
        capabilities: Capabilities::default(),
        compositor: CompositorInfo::default(),
        run: None,
        trials: vec![],
    };
    assert_eq!(
        capture_line(&c),
        "  tristim 0.1.0 | Spyder 2024 SN 87 cal 3 | DP-4 3840x-1 | 2026-05-24T12:00:00Z"
    );
    c.output.mode = None;
    assert!(capture_line(&c).contains("| DP-4 ? |"));
    assert_eq!(management_line(&c.capabilities), "  color management: none advertised");
    c.capabilities.supported_primaries = texts(&["Srgb"]);
    assert_eq!(
        management_line(&c.capabilities),
        "  color management: 0 TFs, 1 primaries, intents []"
    );
    c.capabilities.supported_render_intents = texts(&["Perceptual", "a\"b"]);
    assert_eq!(
        management_line(&c.capabilities),
        format!(
            "  color management: 0 TFs, 1 primaries, intents {:?}",
            c.capabilities.supported_render_intents
        )
    );
    let trial = FormatTrial {
        requested: None,
        pixel_format: text("xrgb8888"),
        outcome: Negotiation::Unmanaged,
        gamut: None,
        samples: vec![],
    };
    let unscored = GroundTruth::Unscored { reason: text("why") };
    assert_eq!(
        trial_heading(&trial, &unscored),
        "  \u{2500}\u{2500} unmanaged [xrgb8888] \u{2014} unscored \u{2014} why \u{2500}\u{2500}"
    );
}
