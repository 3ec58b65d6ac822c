use tristim::display::capabilities::DisplayCapabilities;
use tristim::display::format::BufferFormat;
use tristim::display::mode::{BufferPolicy, PipelinePlan, Unarrangeable};
use tristim::gather::format::{
    known_formats, param, parse_format, parse_params, FormatSpec, MasteringFigures,
};
use tristim::number::Double;

fn double(v: f64) -> Double {
    Double { bits: v.to_bits() }
}

fn number(d: Double) -> f64 {
    f64::from_bits(d.bits)
}

/// The mastering luminances of a spec as numbers.
fn figures(f: &FormatSpec) -> MasteringFigures {
    let read = |s: &Option<String>| s.as_ref().map(|s| double(s.parse().unwrap()));
    MasteringFigures {
        peak: read(&f.mastering.peak),
        min: read(&f.mastering.min),
        max_cll: read(&f.mastering.max_cll),
        max_fall: read(&f.mastering.max_fall),
    }
}

fn plan(spec: &str, caps: &DisplayCapabilities) -> Result<PipelinePlan, Unarrangeable> {
    let f = parse_format(spec).unwrap();
    f.plan(caps, &figures(&f))
}

#[test]
fn planning_gates_on_capabilities() {
    // No color management, only the mandatory 8-bit buffers.
    let bare = DisplayCapabilities::default();
    assert_eq!(plan("unmanaged", &bare).unwrap().buffer, BufferFormat::Xrgb8888);
    assert!(matches!(plan("srgb", &bare), Err(Unarrangeable::NoColorManagement)));

    // A wide-gamut + HDR compositor: everything arrangeable, HDR on fp16.
    let rich = DisplayCapabilities::advertising(
        &["srgb", "st2084_pq"],
        &["srgb", "bt2020", "display_p3"],
        &[BufferFormat::Xbgr16161616f],
    );
    for tok in known_formats() {
        assert!(
            plan(tok, &rich).is_ok(),
            "{tok} should be arrangeable on a full compositor"
        );
    }
    assert_eq!(plan("pq-bt2020", &rich).unwrap().buffer, BufferFormat::Xbgr16161616f);

    // Same, but without display_p3 primaries: the P3 formats trip.
    let no_p3 = DisplayCapabilities::advertising(
        &["srgb", "st2084_pq"],
        &["srgb", "bt2020"],
        &[BufferFormat::Xbgr16161616f],
    );
    assert!(matches!(plan("srgb-p3", &no_p3), Err(Unarrangeable::Description(_))));
    assert!(plan("pq-bt2020", &no_p3).is_ok());

    // fp16 absent: PQ degrades to an advertised deep unorm with a note, or fails
    // when nothing adequate exists.
    let deep = DisplayCapabilities::advertising(
        &["srgb", "st2084_pq"],
        &["srgb", "bt2020"],
        &[BufferFormat::Xrgb2101010],
    );
    let p = plan("pq-bt2020", &deep).unwrap();
    assert_eq!(p.buffer, BufferFormat::Xrgb2101010);
    assert!(!p.notes.is_empty());
    let sdr_only =
        DisplayCapabilities::advertising(&["srgb", "st2084_pq"], &["srgb", "bt2020"], &[]);
    assert!(matches!(plan("pq-bt2020", &sdr_only), Err(Unarrangeable::NoAdequateBuffer { .. })));
}

#[test]
fn format_unmanaged_has_no_description() {
    let f = parse_format("unmanaged").unwrap();
    assert!(f.mode(&figures(&f)).description.is_none());
    assert_eq!(f.buffer_label(), "auto");
    assert!(f.color_description(&figures(&f)).is_none());
}

#[test]
fn format_srgb_declares_srgb() {
    let f = parse_format("srgb").unwrap();
    let d = f.color_description(&figures(&f)).unwrap();
    assert_eq!(d.transfer_function, "srgb");
    assert_eq!(d.primaries, "srgb");
    assert!(d.mastering.is_none());
}

#[test]
fn format_pq_params_override_mastering() {
    let f = parse_format("pq-bt2020:peak=600,maxfall=300").unwrap();
    let d = f.color_description(&figures(&f)).unwrap();
    assert_eq!(d.transfer_function, "st2084_pq");
    assert_eq!(d.primaries, "bt2020");
    let m = d.mastering.unwrap();
    assert_eq!(number(m.max_luminance_nits), 600.0);
    assert_eq!(number(m.max_cll_nits), 600.0); // defaults to peak
    assert_eq!(number(m.max_fall_nits), 300.0);
}

#[test]
fn mastering_defaults_apply() {
    let f = parse_format("pq-p3").unwrap();
    let m = f.color_description(&figures(&f)).unwrap().mastering.unwrap();
    assert_eq!(number(m.min_luminance_nits), 0.0005);
    assert_eq!(number(m.max_luminance_nits), 400.0);
    assert_eq!(number(m.max_cll_nits), 400.0);
    assert_eq!(number(m.max_fall_nits), 200.0);
    let f = parse_format("pq-p3:peak=601").unwrap();
    let m = f.color_description(&figures(&f)).unwrap().mastering.unwrap();
    assert_eq!(number(m.max_fall_nits), 300.5);
}

#[test]
fn buf_param_pins_the_buffer() {
    let f = parse_format("srgb:buf=xrgb2101010").unwrap();
    assert_eq!(f.mode(&figures(&f)).buffer, BufferPolicy::Exact(BufferFormat::Xrgb2101010));
    assert_eq!(f.buffer_label(), "xrgb2101010");
    // The description is unchanged by the buffer pin.
    assert_eq!(f.color_description(&figures(&f)).unwrap().transfer_function, "srgb");
    assert!(parse_format("srgb:buf=nope").is_err());
}

#[test]
fn format_scrgb_records_protocol_definition() {
    let f = parse_format("scrgb").unwrap();
    let d = f.color_description(&figures(&f)).unwrap();
    assert_eq!(d.transfer_function, "ext_linear");
    assert_eq!(d.primaries, "srgb");
    assert_eq!(d.reference_white_nits.map(number), Some(80.0));
}

#[test]
fn format_unknown_errors() {
    assert!(parse_format("nope").is_err());
    assert!(parse_format("pq-bt2020:peak=x").is_err());
}

#[test]
fn format_errors_are_worded() {
    assert_eq!(
        parse_format("nope").unwrap_err(),
        "unknown format \"nope\" (known: unmanaged, srgb, srgb-p3, pq-bt2020, pq-p3, scrgb)"
    );
    assert_eq!(parse_format("pq-p3:peak=x").unwrap_err(), "bad number in param peak=x");
    assert_eq!(
        parse_format("srgb:a\tb").unwrap_err(),
        "bad param \"a\\tb\" (expected key=value)"
    );
    assert_eq!(
        parse_format("srgb:buf=nope").unwrap_err(),
        "unknown buffer format \"nope\" in buf= param"
    );
    assert_eq!(parse_format("srgb:buf=rgb565").unwrap().token(), "srgb:buf=rgb565");
}

#[test]
fn later_parameters_win() {
    let p = parse_params("a=1,b=2,a=3").unwrap();
    assert_eq!(param(&p, "a").unwrap(), "3");
    assert_eq!(param(&p, "b").unwrap(), "2");
    assert_eq!(param(&p, "c"), None);
    assert!(parse_params("").unwrap().is_empty());
    assert_eq!(param(&parse_params("a=b=c").unwrap(), "a").unwrap(), "b=c");
}
