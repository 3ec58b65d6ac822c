use tristim::display::capabilities::DisplayCapabilities;
use tristim::display::color_mgmt::{DescriptionRequest, ParametricDescription};
use tristim::display::format::BufferFormat;
use tristim::display::mode::{BufferPolicy, RenderMode, Unarrangeable};

fn pq_mode() -> RenderMode {
    RenderMode::described(DescriptionRequest::parametric(ParametricDescription::named(
        "st2084_pq",
        "bt2020",
    )))
}

#[test]
fn sdr_modes_plan_onto_8bit_anywhere() {
    let bare = DisplayCapabilities::default();
    let plan = bare.plan(&RenderMode::unmanaged()).unwrap();
    assert_eq!(plan.buffer, BufferFormat::Xrgb8888);
    assert!(plan.notes.is_empty());
}

#[test]
fn described_modes_need_color_management() {
    let bare = DisplayCapabilities::default();
    assert!(matches!(bare.plan(&pq_mode()), Err(Unarrangeable::NoColorManagement)));
}

#[test]
fn pq_prefers_fp16_then_degrades_with_a_note() {
    let tfs = &["srgb", "st2084_pq"];
    let prims = &["srgb", "bt2020"];

    let fp16 = DisplayCapabilities::advertising(tfs, prims, &[BufferFormat::Xbgr16161616f]);
    assert_eq!(fp16.plan(&pq_mode()).unwrap().buffer, BufferFormat::Xbgr16161616f);

    let deep = DisplayCapabilities::advertising(tfs, prims, &[BufferFormat::Xrgb2101010]);
    let plan = deep.plan(&pq_mode()).unwrap();
    assert_eq!(plan.buffer, BufferFormat::Xrgb2101010);
    assert_eq!(plan.notes.len(), 1, "degradation should be noted");

    let sdr_only = DisplayCapabilities::advertising(tfs, prims, &[]);
    assert!(matches!(sdr_only.plan(&pq_mode()), Err(Unarrangeable::NoAdequateBuffer { .. })));
}

#[test]
fn extended_range_requires_float_no_unorm_fallback() {
    let caps = DisplayCapabilities::advertising(
        &["srgb", "ext_linear"],
        &["srgb"],
        &[BufferFormat::Xbgr16161616], // deep unorm can't carry negatives
    );
    let mode = RenderMode::described(DescriptionRequest::named("ext_linear", "srgb"));
    assert!(matches!(
        caps.plan(&mode),
        Err(Unarrangeable::NoAdequateBuffer { needs: "floating-point" })
    ));

    let scrgb = RenderMode::described(DescriptionRequest::windows_scrgb());
    let with_float =
        DisplayCapabilities::advertising(&["srgb"], &["srgb"], &[BufferFormat::Abgr16161616f]);
    assert_eq!(with_float.plan(&scrgb).unwrap().buffer, BufferFormat::Abgr16161616f);
}

#[test]
fn exact_policy_gates_on_advertisement() {
    let caps = DisplayCapabilities::advertising(&["srgb"], &["srgb"], &[]);
    let mut mode = RenderMode::described(DescriptionRequest::named("srgb", "srgb"));
    mode.buffer = BufferPolicy::Exact(BufferFormat::Xrgb2101010);
    assert!(matches!(
        caps.plan(&mode),
        Err(Unarrangeable::BufferNotAdvertised(BufferFormat::Xrgb2101010))
    ));
    // Mandatory formats are always plannable.
    mode.buffer = BufferPolicy::Exact(BufferFormat::Argb8888);
    assert_eq!(caps.plan(&mode).unwrap().buffer, BufferFormat::Argb8888);
}

#[test]
fn description_problems_surface_before_buffer_problems() {
    // PQ is not advertised: a description error, though no deep buffer exists
    // either.
    let caps = DisplayCapabilities::advertising(&["srgb"], &["srgb"], &[]);
    assert!(matches!(caps.plan(&pq_mode()), Err(Unarrangeable::Description(_))));
}

#[test]
fn obstacles_are_worded() {
    let bare = DisplayCapabilities::default();
    let e = bare.plan(&pq_mode()).unwrap_err();
    assert_eq!(e.reason(), "no color management");
    assert_eq!(e.message(""), "compositor doesn't advertise wp_color_manager_v1");

    let caps = DisplayCapabilities::advertising(&["srgb", "st2084_pq"], &["srgb", "bt2020"], &[]);
    let e = caps.plan(&pq_mode()).unwrap_err();
    assert!(e.reason().starts_with("no "));
    assert!(e.reason().ends_with(" buffer"));

    let mut mode = RenderMode::unmanaged();
    mode.buffer = BufferPolicy::Exact(BufferFormat::Xrgb2101010);
    let e = caps.plan(&mode).unwrap_err();
    assert_eq!(e.reason(), "no xrgb2101010 buffer");
    assert_eq!(
        e.message(""),
        "compositor doesn't advertise the xrgb2101010 buffer format"
    );
}

#[test]
fn capabilities_answer_by_name() {
    let caps = DisplayCapabilities::advertising(
        &["srgb", "st2084_pq"],
        &["srgb"],
        &[BufferFormat::Xrgb2101010],
    );
    assert!(caps.has_color_management());
    assert!(caps.supports_transfer_function("st2084_pq"));
    assert!(!caps.supports_transfer_function("hlg"));
    assert!(caps.supports_primaries("srgb"));
    assert!(!caps.supports_primaries("bt2020"));
    assert!(caps.supports_render_intent("perceptual"));
    assert!(caps.supports_feature("parametric"));
    assert!(!caps.supports_feature("nonsense"));
    assert!(caps.supports_buffer_format(BufferFormat::Xrgb8888));
    assert!(caps.supports_buffer_format(BufferFormat::Xrgb2101010));
    assert!(!caps.supports_buffer_format(BufferFormat::Rgb565));
    let formats = caps.supported_buffer_formats();
    assert!(formats.contains(&BufferFormat::Argb8888));
    assert_eq!(
        caps.first_supported(&[BufferFormat::Rgb565, BufferFormat::Xrgb2101010]),
        Some(BufferFormat::Xrgb2101010)
    );
    assert_eq!(caps.first_supported(&[BufferFormat::Rgb565]), None);
    assert!(!DisplayCapabilities::default().has_color_management());
}

#[test]
fn a_completed_enumeration_is_color_management() {
    let mut caps = DisplayCapabilities::default();
    assert!(!caps.supports_render_intent("perceptual"));
    caps.color.done = true;
    assert!(caps.has_color_management());
    assert!(caps.supports_render_intent("perceptual"));
    // There is a manager, so that it is the description which is refused.
    assert!(matches!(caps.plan(&pq_mode()), Err(Unarrangeable::Description(_))));
}

#[test]
fn every_deep_buffer_is_adequate_for_pq() {
    let plan = |formats: &[BufferFormat]| {
        DisplayCapabilities::advertising(&["st2084_pq"], &["bt2020"], formats).plan(&pq_mode())
    };
    for f in BufferFormat::all() {
        match plan(&[f]) {
            Ok(p) => {
                assert_eq!(p.buffer, f);
                assert!(f.is_float() || f.color_depth() >= 10, "{}", f.name());
                assert_eq!(p.notes.is_empty(), f.is_float());
            }
            Err(e) => {
                assert!(!f.is_float() && f.color_depth() < 10, "{}", f.name());
                assert_eq!(e.reason(), "no floating-point or \u{2265}10-bit buffer");
            }
        }
    }
    let three = plan(&[BufferFormat::Rgb161616]).unwrap();
    assert_eq!(three.notes, ["fp16 unavailable; using rgb161616 (16-bit unorm)"]);
    let ten = plan(&[BufferFormat::Bgra1010102]).unwrap();
    assert_eq!(ten.notes, ["fp16 unavailable; using bgra1010102 (10-bit unorm)"]);
    // The deepest comes first, and floats before all.
    let deepest = plan(&[BufferFormat::Xrgb2101010, BufferFormat::Bgr161616]).unwrap();
    assert_eq!(deepest.buffer, BufferFormat::Bgr161616);
    let float = plan(&[BufferFormat::Xbgr16161616, BufferFormat::Argb16161616f]).unwrap();
    assert_eq!(float.buffer, BufferFormat::Argb16161616f);
}
