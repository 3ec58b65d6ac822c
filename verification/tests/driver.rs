use tristim::driver::colorimeter::{
    after_attempt, diagnose_bus, first_match, native_calibration, plan_readings, CalibrationId, Error,
    Family, OpenStep, ReadingStep, ResetDiscipline, UsbError, UsbId, DATACOLOR_VID, XRITE_VID,
};
use tristim::driver::confidence::{
    limiting_sigma, max_corrected, signal_mask, MeasurementConfidence, TrustFlag, FLOOR_SIGMA_MIN,
};
use tristim::driver::measurement::{
    corrected_counts, encode_measure_request, override_integration, parse_calibration,
    parse_raw_measurement, parse_setup, Calibration, IntegrationError, ParseError, RawMeasurement,
    Setup, MIN_INTEGRATION_MS,
};
use tristim::driver::sample::{drift_half, mean_count, raw_max, RawRepeats, Sample};
use tristim::driver::spyder::transport::{
    begin, check_reply, check_written, frame_request, SPYDERX2, SPYDER_2024,
};
use tristim::driver::spyder::{
    after_fast, calibrations, counts_of, first_burst, integration_range, model_name, parse_ascii_int,
    protocol, read_info, setup_at, Burst,
};
use tristim::number::{Double, Fraction, Triple};

fn double(v: f64) -> Double {
    Double { bits: v.to_bits() }
}

fn unit_cal_v2(v2: u16) -> Calibration {
    let mut matrix = [[0u32; 6]; 3];
    for (i, row) in matrix.iter_mut().enumerate() {
        row[i] = 1.0f32.to_bits();
    }
    Calibration {
        index: 0,
        v1: 0,
        v2,
        v4: [0; 6],
        matrix,
        gain: [1.0f32.to_bits(); 3],
        offset: [0; 3],
        v3: 0,
    }
}

fn setup_with_floor(s2: u16, s5: [u8; 6]) -> Setup {
    Setup { s1: 0, s2, s3: [0; 6], s4: [0; 6], s5 }
}

fn zero_floor_setup() -> Setup {
    setup_with_floor(714, [0; 6])
}

/// XYZ of a reading, with the matrix scaled by a factor.
fn to_xyz(raw: &RawMeasurement, setup: &Setup, cal: &Calibration, scale: Fraction) -> [f64; 3] {
    let counts = corrected_counts(raw, setup);
    let scale = scale.num as f64 / scale.den as f64;
    let mut xyz = [0.0; 3];
    for i in 0..3 {
        let sum: f64 = (0..6)
            .map(|j| f32::from_bits(cal.matrix[i][j]) as f64 * scale * counts[j] as f64)
            .sum();
        xyz[i] = sum * f32::from_bits(cal.gain[i]) as f64 + f32::from_bits(cal.offset[i]) as f64;
    }
    xyz
}

/// A half-integration measurement reconstructs the same XYZ as the default one
/// with the scaled calibration.
#[test]
fn override_preserves_absolute_xyz() {
    let cal = unit_cal_v2(714);
    let setup = zero_floor_setup();
    let raw_full = RawMeasurement([200, 150, 100, 0, 0, 0]);
    let xyz_full = to_xyz(&raw_full, &setup, &cal, Fraction { num: 1, den: 1 });

    let (setup_half, scale) = override_integration(&setup, &cal, 357).unwrap();
    assert_eq!(setup_half.s2, 357);
    let raw_half = RawMeasurement([100, 75, 50, 0, 0, 0]);
    let xyz_half = to_xyz(&raw_half, &setup_half, &cal, scale);

    assert!((xyz_full[0] - xyz_half[0]).abs() < 1e-9);
    assert!((xyz_full[1] - xyz_half[1]).abs() < 1e-9);
    assert!((xyz_full[2] - xyz_half[2]).abs() < 1e-9);
}

/// Outside the range the device misbehaves; the request is refused.
#[test]
fn override_rejects_out_of_range() {
    let cal = unit_cal_v2(714);
    let setup = zero_floor_setup();
    assert!(matches!(
        override_integration(&setup, &cal, 5),
        Err(IntegrationError::OutOfRange { .. })
    ));
    assert!(matches!(
        override_integration(&setup, &cal, 1000),
        Err(IntegrationError::OutOfRange { .. })
    ));
    // Boundaries are accepted.
    assert!(override_integration(&setup, &cal, MIN_INTEGRATION_MS).is_ok());
    assert!(override_integration(&setup, &cal, cal.v2).is_ok());
}

/// At the device default nothing changes.
#[test]
fn override_at_default_is_identity() {
    let cal = unit_cal_v2(714);
    let setup = zero_floor_setup();
    let (setup_id, scale) = override_integration(&setup, &cal, 714).unwrap();
    assert_eq!(setup_id.s2, setup.s2);
    let factor = scale.num as f64 / scale.den as f64;
    for i in 0..3 {
        for j in 0..6 {
            let entry = f32::from_bits(cal.matrix[i][j]) as f64;
            assert!((entry * factor - entry).abs() < 1e-12);
        }
    }
}

#[test]
fn calibration_setup_and_counts_are_read() {
    let mut p = vec![0u8; 108];
    p[0] = 2;
    p[1] = 9;
    p[2..4].copy_from_slice(&714u16.to_be_bytes());
    // The matrix is stored by columns.
    p[14..18].copy_from_slice(&2.5f32.to_le_bytes());
    p[90..94].copy_from_slice(&1.5f32.to_le_bytes());
    p[102..106].copy_from_slice(&(-1.0f32).to_le_bytes());
    let cal = parse_calibration(&p, 2).unwrap();
    assert_eq!((cal.index, cal.v1, cal.v2), (2, 9, 714));
    assert_eq!(f32::from_bits(cal.matrix[1][0]), 2.5);
    assert_eq!(f32::from_bits(cal.gain[1]), 1.5);
    assert_eq!(f32::from_bits(cal.offset[2]), -1.0);
    assert_eq!(cal.integration_ms(), 714);
    assert!(matches!(
        parse_calibration(&p, 1),
        Err(ParseError::CalIndexMismatch { expected: 1, got: 2 })
    ));
    assert!(matches!(
        parse_calibration(&p[1..], 0),
        Err(ParseError::BadLength { expected: 108, got: 107 })
    ));

    let mut p: Vec<u8> = (0..22).collect();
    p[..2].copy_from_slice(&500u16.to_be_bytes());
    p[2] = 9;
    let setup = parse_setup(&p, 9).unwrap();
    assert_eq!(setup.s2, 500);
    assert_eq!(setup.s5, [15, 16, 17, 18, 19, 20]);
    assert!(matches!(parse_setup(&p, 8), Err(ParseError::SetupV1Mismatch { expected: 8, got: 9 })));
    assert!(matches!(parse_setup(&p[1..], 9), Err(ParseError::BadLength { .. })));
    assert_eq!(encode_measure_request(&setup), p[..15]);

    let raw = parse_raw_measurement(&[0, 1, 0, 2, 0, 3, 0, 4, 0, 5, 1, 6]).unwrap();
    assert_eq!(raw.0, [1, 2, 3, 4, 5, 0x106]);
    assert!(parse_raw_measurement(&[0; 11]).is_err());
    let floor = setup_with_floor(0, [2; 6]);
    assert_eq!(corrected_counts(&raw, &floor), [0, 0, 1, 2, 3, 0x104]);
}

// ---------------------------------------------------------------------------
// Trust
// ---------------------------------------------------------------------------

fn mean(v: &[f64]) -> f64 {
    v.iter().sum::<f64>() / v.len() as f64
}

fn deviation(v: &[f64], m: f64) -> f64 {
    (v.iter().map(|x| (x - m).powi(2)).sum::<f64>() / (v.len() - 1) as f64).sqrt()
}

/// The confidence of readings whose luminance is the sum of all channels.
fn confidence(raws: &[RawMeasurement], setup: &Setup) -> (Vec<bool>, MeasurementConfidence) {
    let quant = 0.5f64 / 3f64.sqrt();
    let mut corrected = Vec::new();
    let mut sigma = Vec::new();
    for ch in 0..6 {
        let vals: Vec<f64> = raws.iter().map(|r| r.0[ch] as f64).collect();
        let m = mean(&vals);
        let c = (m - setup.s5[ch] as f64).max(0.0);
        corrected.push(double(c));
        sigma.push(double(c / deviation(&vals, m).hypot(quant)));
    }
    let top = max_corrected(&corrected);
    let threshold = double((f64::from_bits(top.bits) * 0.01).max(1.0));
    let mask = signal_mask(&corrected, threshold);
    let ys: Vec<f64> = raws
        .iter()
        .map(|r| corrected_counts(r, setup).iter().map(|&c| c as f64).sum())
        .collect();
    let y = mean(&ys);
    // A quantum on a signal channel moves the luminance as much.
    let signal = mask.iter().filter(|s| **s).count();
    let noise = deviation(&ys, y).hypot(quant * (signal as f64).sqrt());
    let c = MeasurementConfidence {
        max_corrected: top,
        min_floor_sigma: limiting_sigma(&sigma, &mask),
        y_rel_uncertainty: double(if y.abs() < 1e-9 { f64::INFINITY } else { noise / y }),
        uv_std: None,
    };
    (mask, c)
}

/// Dark channels must not poison the verdict; a reading where everything sits at
/// the floor carries no signal.
#[test]
fn excludes_dark_channels_and_flags_floor() {
    let setup = setup_with_floor(0, [20; 6]);

    // ch0-2 well above the floor; ch3-5 pinned at it (dark).
    let bright = vec![
        RawMeasurement([200, 200, 200, 20, 20, 20]),
        RawMeasurement([202, 198, 201, 20, 20, 20]),
        RawMeasurement([198, 202, 199, 20, 20, 20]),
    ];
    let (is_signal, c) = confidence(&bright, &setup);
    assert_eq!(is_signal, [true, true, true, false, false, false]);
    assert!(f64::from_bits(c.min_floor_sigma.bits) > f64::from_bits(FLOOR_SIGMA_MIN));
    assert!(c.is_trustworthy());

    // Every channel at or below its floor: nothing carries signal.
    let dark = vec![
        RawMeasurement([20, 18, 21, 19, 20, 22]),
        RawMeasurement([19, 21, 20, 18, 21, 19]),
        RawMeasurement([21, 19, 19, 20, 20, 20]),
    ];
    let (is_signal, c) = confidence(&dark, &setup);
    assert!(is_signal.iter().all(|&s| !s), "no channel should count as signal at the floor");
    assert!(c.flags().contains(&TrustFlag::Floor));
}

#[test]
fn flags_are_raised_at_their_thresholds() {
    let good = MeasurementConfidence {
        max_corrected: double(100.0),
        min_floor_sigma: double(3.0),
        y_rel_uncertainty: double(0.05),
        uv_std: Some(double(0.003)),
    };
    assert!(good.is_trustworthy());
    let floor = MeasurementConfidence { min_floor_sigma: double(2.999), ..good };
    assert_eq!(floor.flags(), [TrustFlag::Floor]);
    let dim = MeasurementConfidence { max_corrected: double(0.5), ..good };
    assert_eq!(dim.flags(), [TrustFlag::Floor]);
    let noisy = MeasurementConfidence { y_rel_uncertainty: double(f64::INFINITY), ..good };
    assert_eq!(noisy.flags(), [TrustFlag::Noisy]);
    let all = MeasurementConfidence {
        max_corrected: double(0.0),
        y_rel_uncertainty: double(0.051),
        uv_std: Some(double(0.0031)),
        ..good
    };
    assert_eq!(all.flags(), [TrustFlag::Floor, TrustFlag::Noisy, TrustFlag::Chroma]);
}

// ---------------------------------------------------------------------------
// Protocol
// ---------------------------------------------------------------------------

#[test]
fn requests_are_framed_and_replies_checked() {
    assert_eq!(
        frame_request(0xC2, 0x1234, &[7, 8]),
        [0xC2, 0x12, 0x34, 0x00, 0x02, 7, 8]
    );
    let command = protocol::setup_command(3);
    let (nonce, frame) = begin(&command);
    assert_eq!(frame, frame_request(command.opcode, nonce, &command.payload));
    assert!(check_written(7, 7).is_ok());
    assert!(matches!(check_written(6, 7), Err(Error::ShortWrite { sent: 6, expected: 7 })));

    let good = [0x12, 0x34, 0, 0, 3, 1, 2, 3];
    assert_eq!(check_reply(0x1234, &good, 8, 3, true).unwrap(), [1, 2, 3]);
    assert!(matches!(
        check_reply(0x1235, &good, 8, 3, true),
        Err(Error::NonceMismatch { sent: 0x1235, got: 0x1234 })
    ));
    assert!(matches!(
        check_reply(0x1234, &good, 7, 3, true),
        Err(Error::ShortRead { got: 7, expected: 8 })
    ));
    let mut bad = good;
    bad[2] = 9;
    assert!(matches!(check_reply(0x1234, &bad, 8, 3, true), Err(Error::InstrumentError(9))));
    let mut bad = good;
    bad[4] = 4;
    assert!(matches!(
        check_reply(0x1234, &bad, 8, 3, true),
        Err(Error::PayloadLenMismatch { reported: 4, expected: 3 })
    ));
    let mut bad = good;
    bad[7] = 4;
    assert!(matches!(
        check_reply(0x1234, &bad, 8, 3, true),
        Err(Error::ChecksumMismatch { computed: 3, advertised: 4 })
    ));
    assert!(check_reply(0x1234, &bad, 8, 3, false).is_ok());
}

/// The nonces of many requests are not all the same.
#[test]
fn nonces_vary() {
    let command = protocol::info_command();
    let first = begin(&command).0;
    assert!((0..64).any(|_| begin(&command).0 != first));
}

#[test]
fn information_is_read() {
    let mut reply = [0u8; 0x25];
    reply[..12].copy_from_slice(b"6.0587000216");
    reply[17..20].copy_from_slice(&[0x09, 0x08, 0x01]);
    reply[20..22].copy_from_slice(&0x7fu16.to_be_bytes());
    reply[35] = 7; // one more than the greatest type
    let info = read_info(&reply, SPYDER_2024).unwrap();
    assert_eq!(info.firmware, (6, 5));
    assert_eq!(info.serial, "87000216");
    assert!(info.caps.high_level_commands);
    assert_eq!(info.caps.display_type_mask, Some(0x7f));
    assert_eq!(info.caps.max_display_type, Some(6));
    reply[35] = 0;
    assert_eq!(read_info(&reply, SPYDER_2024).unwrap().caps.max_display_type, None);
    let info = read_info(&reply, SPYDERX2).unwrap();
    assert!(!info.caps.high_level_commands);
    reply[0] = b'?';
    assert!(matches!(read_info(&reply, SPYDERX2), Err(Error::BadVersionString(_))));
    assert_eq!(parse_ascii_int(b"05"), Some(5));
    assert_eq!(parse_ascii_int(b"x"), None);
    assert_eq!(model_name(SPYDER_2024), "Spyder 2024");
    assert_eq!(model_name(SPYDERX2), "SpyderX2");
}

#[test]
fn serial_bytes_that_are_no_text_are_left_out() {
    let mut reply = [0u8; 0x25];
    reply[..4].copy_from_slice(b"6.05");
    reply[4..12].copy_from_slice(&[0xff; 8]);
    let info = read_info(&reply, SPYDERX2).unwrap();
    assert!(!info.serial.contains('6'));
}

#[test]
fn calibrations_follow_the_mask() {
    let names = |list: Vec<tristim::driver::colorimeter::CalibrationDesc>| -> Vec<(u8, String)> {
        list.into_iter().map(|d| (d.id.0, d.name)).collect()
    };
    let all = names(calibrations(SPYDER_2024, None));
    assert_eq!(all.len(), 7);
    assert_eq!(all[0], (0, "General".to_string()));
    assert_eq!(all[6], (6, "Mini-LED".to_string()));
    assert_eq!(names(calibrations(SPYDERX2, None)).len(), 5);
    assert_eq!(names(calibrations(SPYDERX2, Some(0))).len(), 5);
    let some = names(calibrations(SPYDER_2024, Some(0b1_0000_0101)));
    assert_eq!(
        some,
        [
            (0, "General".to_string()),
            (2, "Wide Gamut LED".to_string()),
            (8, "Display type 8".to_string())
        ]
    );
    let native = native_calibration();
    assert_eq!(native.len(), 1);
    assert_eq!(native[0].id, CalibrationId(0));
    assert_eq!(native[0].name, "Native");
}

#[test]
fn adaptive_bursts_escalate() {
    let cal = unit_cal_v2(714);
    let setup = zero_floor_setup();
    assert!(matches!(first_burst(&setup, &cal, None), Burst::Full { .. }));
    assert!(matches!(first_burst(&setup, &cal, Some(9)), Burst::Full { .. }));
    // The default exposure is no shorter one.
    let default = Some(cal.integration_ms());
    assert!(matches!(first_burst(&setup, &cal, default), Burst::Full { .. }));
    match first_burst(&setup, &cal, Some(200)) {
        Burst::Fast { setup, scale } => {
            assert_eq!(setup.s2, 200);
            assert_eq!(scale, Fraction { num: 714, den: 200 });
        }
        other => panic!("{other:?}"),
    }
    assert!(after_fast(true).is_none());
    assert!(matches!(after_fast(false), Some(Burst::Full { .. })));
    assert_eq!(integration_range(&cal), (MIN_INTEGRATION_MS, 714));
    assert!(setup_at(&setup, &cal, 300).is_ok());
    assert!(matches!(
        setup_at(&setup, &cal, 9),
        Err(Error::IntegrationOutOfRange { got: 9, min: 10, max: 714 })
    ));
    let raws = vec![RawMeasurement([1, 2, 3, 4, 5, 6])];
    assert_eq!(counts_of(&raws), vec![vec![1, 2, 3, 4, 5, 6]]);
}

// ---------------------------------------------------------------------------
// Devices and runs
// ---------------------------------------------------------------------------

#[test]
fn drivers_are_tried_in_order() {
    assert!(matches!(after_attempt(Family::Spyder, Ok(())), OpenStep::Use));
    assert!(matches!(
        after_attempt(Family::Spyder, Err(Error::NotFound(1))),
        OpenStep::Try(Family::SpyderX)
    ));
    assert!(matches!(
        after_attempt(Family::SpyderX, Err(Error::NotFound(1))),
        OpenStep::Try(Family::I1d3)
    ));
    assert!(matches!(
        after_attempt(Family::I1d3, Err(Error::NotFound(1))),
        OpenStep::Diagnose
    ));
    assert!(matches!(
        after_attempt(Family::Spyder, Err(Error::Saturated)),
        OpenStep::Fail(Error::Saturated)
    ));
    assert!(matches!(
        Error::at_open(UsbError::Access, 1, 2),
        Error::AccessDenied { vid: 1, pid: 2 }
    ));
    assert!(matches!(Error::at_open(UsbError::Busy, 1, 2), Error::Usb(UsbError::Busy)));
}

#[test]
fn the_bus_is_searched_and_diagnosed() {
    let bus = vec![
        None,
        Some(UsbId { vid: 1, pid: 2 }),
        Some(UsbId { vid: DATACOLOR_VID, pid: 0x0a00 }),
        Some(UsbId { vid: XRITE_VID, pid: 0x5020 }),
    ];
    assert_eq!(first_match(&bus, XRITE_VID, &[0x5020]), Some(3));
    assert_eq!(first_match(&bus, DATACOLOR_VID, &[0x0a0a, 0x0a0b]), None);
    assert!(matches!(
        diagnose_bus(&bus),
        Error::UnsupportedModel { vendor: "Datacolor", vid: DATACOLOR_VID, pid: 0x0a00 }
    ));
    assert!(matches!(
        diagnose_bus(&bus[3..].to_vec()),
        Error::UnsupportedModel { vendor: "X-Rite", .. }
    ));
    assert!(matches!(diagnose_bus(&bus[..2].to_vec()), Error::NoDevice));
}

#[test]
fn readings_are_planned() {
    assert!(plan_readings(0, ResetDiscipline::BurstOnce).is_empty());
    assert_eq!(
        plan_readings(2, ResetDiscipline::BurstOnce),
        [ReadingStep::Reset, ReadingStep::Read, ReadingStep::Read]
    );
    assert_eq!(
        plan_readings(2, ResetDiscipline::AutoZeroEach),
        [ReadingStep::Reset, ReadingStep::Read, ReadingStep::Reset, ReadingStep::Read]
    );
}

#[test]
fn runs_of_readings_are_summed_up() {
    let raws = vec![RawMeasurement([1, 2, 3, 4, 5, 6]), RawMeasurement([9, 1, 1, 1, 1, 1])];
    assert_eq!(raw_max(&raws), 9);
    assert_eq!(raw_max(&vec![]), 0);
    assert_eq!(drift_half(3), None);
    assert_eq!(drift_half(9), Some(4));
    for v in [0.0, 0.5, 1.5, 2.49, 65534.5, 70000.0, -3.0, f64::NAN] {
        assert_eq!(mean_count(double(v)), v.round().clamp(0.0, 65535.0) as u16, "{v}");
    }
    let t = Triple { a: double(1.0), b: double(2.0), c: double(3.0) };
    let rr = RawRepeats {
        counts: vec![vec![1, 2, 3]],
        floor: vec![double(1.5); 3],
        grad: vec![t; 3],
    };
    assert_eq!((rr.channels(), rr.repeats()), (3, 1));
    let s = Sample { xyz: vec![t, t], raw: Some(rr) };
    assert_eq!(s.repeats(), 2);
}
