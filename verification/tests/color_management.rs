use tristim::display::color_mgmt::{
    attach_plan, cause_name, coord_to_protocol, feature_named, handle_description_event, handle_manager_event,
    intent_named, nits_to_lum, nits_to_min_ticks, power_to_protocol, primaries_named, tf_named,
    validate_description, Advertised, AttachError, ColorCapabilities, CreatorRequest,
    DescriptionEvent, DescriptionKind, DescriptionRequest, DescriptionState, Feature, Luminances,
    ManagerEvent, Mastering, ParametricDescription, Primaries, PrimariesChoice, PrimaryCoords,
    RenderIntent, TransferChoice, TransferFunction,
};
use tristim::display::capabilities::DisplayCapabilities;
use tristim::number::{Double, Pair};
use wayland_protocols::wp::color_management::v1::client::wp_color_manager_v1 as wire;

fn double(v: f64) -> Double {
    Double { bits: v.to_bits() }
}

fn pair(a: f64, b: f64) -> Pair {
    Pair { a: double(a), b: double(b) }
}

#[test]
fn tf_table_maps_the_full_protocol_enum() {
    // Every protocol TF entry as of v2.
    let all = [
        ("bt1886", wire::TransferFunction::Bt1886),
        ("gamma22", wire::TransferFunction::Gamma22),
        ("gamma28", wire::TransferFunction::Gamma28),
        ("st240", wire::TransferFunction::St240),
        ("ext_linear", wire::TransferFunction::ExtLinear),
        ("log_100", wire::TransferFunction::Log100),
        ("log_316", wire::TransferFunction::Log316),
        ("xvycc", wire::TransferFunction::Xvycc),
        ("srgb", wire::TransferFunction::Srgb),
        ("ext_srgb", wire::TransferFunction::ExtSrgb),
        ("st2084_pq", wire::TransferFunction::St2084Pq),
        ("st428", wire::TransferFunction::St428),
        ("hlg", wire::TransferFunction::Hlg),
        ("compound_power_2_4", wire::TransferFunction::CompoundPower24),
    ];
    for (name, tf) in all {
        let got = tf_named(name).unwrap();
        assert_eq!(got.code(), u32::from(tf), "{name}");
        assert_eq!(got.variant(), format!("{tf:?}"), "{name}");
    }
    assert_eq!(tf_named("nonsense"), None);
}

#[test]
fn primaries_table_maps_the_full_protocol_enum() {
    let all = [
        ("srgb", wire::Primaries::Srgb),
        ("pal_m", wire::Primaries::PalM),
        ("pal", wire::Primaries::Pal),
        ("ntsc", wire::Primaries::Ntsc),
        ("generic_film", wire::Primaries::GenericFilm),
        ("bt2020", wire::Primaries::Bt2020),
        ("cie1931_xyz", wire::Primaries::Cie1931Xyz),
        ("dci_p3", wire::Primaries::DciP3),
        ("display_p3", wire::Primaries::DisplayP3),
        ("adobe_rgb", wire::Primaries::AdobeRgb),
    ];
    for (name, p) in all {
        let got = primaries_named(name).unwrap();
        assert_eq!(got.code(), u32::from(p), "{name}");
        assert_eq!(got.variant(), format!("{p:?}"), "{name}");
    }
    assert_eq!(primaries_named("nonsense"), None);
}

#[test]
fn intent_table_maps_the_full_protocol_enum() {
    let all = [
        ("perceptual", wire::RenderIntent::Perceptual),
        ("relative", wire::RenderIntent::Relative),
        ("saturation", wire::RenderIntent::Saturation),
        ("absolute", wire::RenderIntent::Absolute),
        ("relative_bpc", wire::RenderIntent::RelativeBpc),
        ("absolute_no_adaptation", wire::RenderIntent::AbsoluteNoAdaptation),
    ];
    for (name, i) in all {
        let got = intent_named(name).unwrap();
        assert_eq!(got.code(), u32::from(i), "{name}");
        assert_eq!(got.variant(), format!("{i:?}"), "{name}");
    }
    assert_eq!(intent_named("nonsense"), None);
}

#[test]
fn feature_table_matches_the_protocol() {
    let all = [
        ("icc_v2_v4", wire::Feature::IccV2V4),
        ("parametric", wire::Feature::Parametric),
        ("set_primaries", wire::Feature::SetPrimaries),
        ("set_tf_power", wire::Feature::SetTfPower),
        ("set_luminances", wire::Feature::SetLuminances),
        ("set_mastering_display_primaries", wire::Feature::SetMasteringDisplayPrimaries),
        ("extended_target_volume", wire::Feature::ExtendedTargetVolume),
        ("windows_scrgb", wire::Feature::WindowsScrgb),
    ];
    for (name, f) in all {
        let got = feature_named(name).unwrap();
        assert_eq!(got.code(), u32::from(f), "{name}");
        assert_eq!(got.variant(), format!("{f:?}"), "{name}");
    }
    assert_eq!(feature_named("nonsense"), None);
}

#[test]
fn unit_conversions() {
    assert_eq!(nits_to_min_ticks(double(0.0005)), 5);
    assert_eq!(nits_to_lum(double(400.2)), 400);
    assert_eq!(coord_to_protocol(double(0.3127)), 312_700);
    assert_eq!(coord_to_protocol(double(0.708)), 708_000);
}

#[test]
fn unit_conversions_follow_floating_point() {
    let values = [
        0.0, -0.0, 0.5, 1.5, 2.5, -0.5, -1.5, 0.00005, 0.00015, 1e-320, 1e300, -1e300, 2.4,
        0.1 + 0.2, 4294967295.4, 429496.72955, 2147.4836475, -2147.4836485, f64::NAN,
        f64::INFINITY, f64::NEG_INFINITY,
    ];
    for v in values {
        assert_eq!(nits_to_min_ticks(double(v)), (v * 10_000.0).round().max(0.0) as u32, "{v}");
        assert_eq!(nits_to_lum(double(v)), v.round().max(0.0) as u32, "{v}");
        assert_eq!(coord_to_protocol(double(v)), (v * 1_000_000.0).round() as i32, "{v}");
        assert_eq!(power_to_protocol(double(v)), (v * 10_000.0).round() as u32, "{v}");
    }
    let mut state = 99u64;
    for _ in 0..20_000 {
        state = state.wrapping_mul(6364136223846793005).wrapping_add(1442695040888963407);
        let v = f64::from_bits(state);
        assert_eq!(nits_to_min_ticks(double(v)), (v * 10_000.0).round().max(0.0) as u32, "{v}");
        assert_eq!(coord_to_protocol(double(v)), (v * 1_000_000.0).round() as i32, "{v}");
        let w = (state >> 11) as f64 / (1u64 << 40) as f64;
        assert_eq!(nits_to_min_ticks(double(w)), (w * 10_000.0).round() as u32, "{w}");
        assert_eq!(nits_to_lum(double(w)), w.round() as u32, "{w}");
        assert_eq!(coord_to_protocol(double(-w)), (-w * 1_000_000.0).round() as i32, "{w}");
    }
}

fn full_caps() -> ColorCapabilities {
    let mut caps = ColorCapabilities::default();
    for e in [
        ManagerEvent::SupportedIntent(Advertised::Known("Perceptual".into())),
        ManagerEvent::SupportedFeature(Advertised::Known("Parametric".into())),
        ManagerEvent::SupportedFeature(Advertised::Known("SetPrimaries".into())),
        ManagerEvent::SupportedFeature(Advertised::Known("SetTfPower".into())),
        ManagerEvent::SupportedFeature(Advertised::Known("SetLuminances".into())),
        ManagerEvent::SupportedFeature(Advertised::Known("SetMasteringDisplayPrimaries".into())),
        ManagerEvent::SupportedTfNamed(Advertised::Known("Srgb".into())),
        ManagerEvent::SupportedTfNamed(Advertised::Unknown(77)),
        ManagerEvent::SupportedPrimariesNamed(Advertised::Known("Bt2020".into())),
        ManagerEvent::Other,
        ManagerEvent::Done,
    ] {
        handle_manager_event(e, &mut caps);
    }
    caps
}

#[test]
fn manager_events_fill_the_record() {
    let caps = full_caps();
    assert!(caps.done);
    assert_eq!(caps.transfer_functions, ["Srgb", "unknown(77)"]);
    assert_eq!(caps.primaries, ["Bt2020"]);
    assert_eq!(caps.render_intents, ["Perceptual"]);
    assert_eq!(caps.features.len(), 5);
    assert!(caps.has_tf(TransferFunction::Srgb));
    assert!(!caps.has_tf(TransferFunction::Hlg));
    assert!(caps.has_primaries(Primaries::Bt2020));
    assert!(caps.has_feature(Feature::SetTfPower));
    assert!(!caps.has_feature(Feature::WindowsScrgb));
    assert!(caps.has_intent(RenderIntent::Perceptual));
    assert!(!caps.has_intent(RenderIntent::Absolute));
}

#[test]
fn description_events_settle_the_state() {
    let mut s = DescriptionState::Pending;
    handle_description_event(DescriptionEvent::Other, &mut s);
    assert!(matches!(s, DescriptionState::Pending));
    handle_description_event(DescriptionEvent::Ready { identity: 7 }, &mut s);
    assert!(matches!(s, DescriptionState::Ready { identity: 7 }));
    handle_description_event(
        DescriptionEvent::Ready2 { identity_hi: 1, identity_lo: 2 },
        &mut s,
    );
    assert!(matches!(s, DescriptionState::Ready { identity: 0x1_0000_0002 }));
    handle_description_event(
        DescriptionEvent::Failed { cause: 1, message: "m".into() },
        &mut s,
    );
    match s {
        DescriptionState::Failed { cause, message } => {
            assert_eq!(cause, "unsupported");
            assert_eq!(message, "m");
        }
        _ => panic!("not failed"),
    }
}

#[test]
fn causes_have_the_protocols_names() {
    assert_eq!(cause_name(0), "low_version");
    assert_eq!(cause_name(1), "unsupported");
    assert_eq!(cause_name(2), "operating_system");
    assert_eq!(cause_name(3), "no_output");
    assert_eq!(cause_name(4), "unknown(4)");
}

fn description(p: ParametricDescription) -> DescriptionRequest {
    DescriptionRequest { kind: DescriptionKind::Parametric(p), render_intent: "perceptual".into() }
}

#[test]
fn a_full_description_is_attached_in_order() {
    let coords = PrimaryCoords {
        red: pair(0.7, 0.3),
        green: pair(0.2, 0.7),
        blue: pair(0.1, 0.1),
        white: pair(0.3127, 0.329),
    };
    let lums =
        Luminances { min_nits: double(0.1), max_nits: double(400.0), reference_nits: double(203.0) };
    let req = description(ParametricDescription {
        transfer_function: TransferChoice::Power(double(2.4)),
        primaries: PrimariesChoice::Custom(coords),
        luminances: Some(lums),
        mastering: Some(Mastering {
            luminance_nits: Some(pair(0.01, 1000.0)),
            primaries: Some(coords),
            max_cll_nits: Some(double(900.0)),
            max_fall_nits: None,
        }),
    });
    let plan = attach_plan(&req, &full_caps()).unwrap();
    assert_eq!(plan.intent, RenderIntent::Perceptual);
    let requests = plan.creator.unwrap();
    assert_eq!(requests.len(), 6);
    assert!(matches!(requests[0], CreatorRequest::SetTfPower(e) if e == double(2.4)));
    assert!(matches!(requests[1], CreatorRequest::SetPrimaries(c) if c == coords));
    assert!(matches!(requests[2], CreatorRequest::SetLuminances(l) if l == lums));
    assert!(matches!(requests[3], CreatorRequest::SetMasteringLuminance(p) if p == pair(0.01, 1000.0)));
    assert!(matches!(requests[4], CreatorRequest::SetMasteringDisplayPrimaries(c) if c == coords));
    assert!(matches!(requests[5], CreatorRequest::SetMaxCll(n) if n == double(900.0)));
}

#[test]
fn refusals_name_what_is_missing() {
    let caps = full_caps();
    let refuse = |req: &DescriptionRequest| validate_description(req, &caps).unwrap_err();

    let e = refuse(&DescriptionRequest::named("nope", "bt2020"));
    assert!(matches!(&e, AttachError::UnknownTransferFunction(n) if n == "nope"));
    assert_eq!(e.reason(), "TF nope unsupported");
    assert_eq!(e.message(""), "transfer function name not mapped by this build: \"nope\"");

    let e = refuse(&DescriptionRequest::named("hlg", "bt2020"));
    assert!(matches!(&e, AttachError::TfNotAdvertised(n) if n == "hlg"));
    assert_eq!(e.message(""), "compositor doesn't advertise transfer function \"hlg\"");

    let e = refuse(&DescriptionRequest::named("srgb", "nope"));
    assert!(matches!(&e, AttachError::UnknownPrimaries(_)));
    let e = refuse(&DescriptionRequest::named("srgb", "srgb"));
    assert!(matches!(&e, AttachError::PrimariesNotAdvertised(_)));
    assert_eq!(e.reason(), "primaries srgb unsupported");

    let mut req = DescriptionRequest::named("srgb", "bt2020");
    assert!(validate_description(&req, &caps).is_ok());
    req.render_intent = "nope".into();
    assert!(matches!(refuse(&req), AttachError::UnknownRenderIntent(_)));
    req.render_intent = "absolute".into();
    let e = refuse(&req);
    assert!(matches!(&e, AttachError::IntentNotAdvertised(_)));
    assert_eq!(e.reason(), "intent absolute unsupported");

    let e = refuse(&DescriptionRequest::windows_scrgb());
    assert!(matches!(e, AttachError::FeatureNotAdvertised("windows_scrgb")));
    assert_eq!(e.reason(), "no windows_scrgb feature");
    assert_eq!(e.message(""), "compositor doesn't advertise the \"windows_scrgb\" feature");

    let e = refuse(&description(ParametricDescription {
        transfer_function: TransferChoice::Power(double(10.5)),
        primaries: PrimariesChoice::Named("bt2020".into()),
        luminances: None,
        mastering: None,
    }));
    assert!(matches!(e, AttachError::PowerExponentOutOfRange(_)));
    assert_eq!(
        e.message("10.5"),
        "power-TF exponent 10.5 outside the protocol range 1.0..=10.0"
    );

    let bare = DisplayCapabilities::default();
    assert!(validate_description(&DescriptionRequest::named("srgb", "srgb"), &bare.color).is_err());
}

#[test]
fn labels_name_the_choices() {
    assert_eq!(TransferChoice::Named("hlg".into()).label(""), "hlg");
    assert_eq!(TransferChoice::Power(double(2.2)).label("2.2"), "power_2.2");
    assert_eq!(PrimariesChoice::Named("srgb".into()).label(), "srgb");
}
