use tristim::driver::colorimeter::{CalibrationId, Error};
use tristim::driver::i1d3::adaptive::{
    assess_survey, center_counts, period_hz, plan_refinement, Disposition, Frequency, RefinePlan,
    FALLBACK_CLOCKS, SURVEY_CLOCKS,
};
use tristim::driver::i1d3::eeprom::{
    ascii_field, check_calibration, decode_external, decode_internal, Memory, MemoryRead, Piece,
};
use tristim::driver::i1d3::emissive::{
    finish_rgb, period_reply, Emissive, Reply, Request, STATUS_PERIOD_FAIL,
};
use tristim::driver::i1d3::report::{
    build_report, channel_numbers, check_diffuser, check_report, check_sent, diffuser_over_sensor,
    freq_params, is_locked, is_munki_display, parse_version, period_params, product_type, reply_text,
    select_calibration, CommandCode,
};
use tristim::driver::i1d3::unlock::{unlock_keys, unlock_response, UnlockState};
use tristim::number::Double;

fn double(v: f64) -> Double {
    Double { bits: v.to_bits() }
}

fn hz(f: &Frequency) -> f64 {
    let (num, den) = f.ratio();
    num as f64 / den as f64
}

/// Counts over a quarter of a second.
fn survey(count: u64) -> Disposition {
    assess_survey(2 * count, SURVEY_CLOCKS)
}

/// A frequency in tenths of a hertz.
fn tenths(n: u64) -> Frequency {
    Frequency::Counted { half_counts: n, clocks: 30_000_000 }
}

#[test]
fn bright_channel_is_done_at_survey() {
    // 10 kHz: 5000 counts over 0.25 s.
    match survey(5000) {
        Disposition::Done(f) => assert_eq!(hz(&f), 10_000.0),
        other => panic!("{other:?}"),
    }
}

#[test]
fn acceptance_boundary() {
    assert!(matches!(survey(400), Disposition::Done(_)));
    assert!(matches!(survey(399), Disposition::Refine(_)));
}

#[test]
fn mid_channel_gets_estimate() {
    // 100 counts over 0.25 s: a 200 Hz estimate.
    match survey(100) {
        Disposition::Refine(f) => assert_eq!(hz(&f), 200.0),
        other => panic!("{other:?}"),
    }
}

#[test]
fn dark_channel_needs_probe() {
    assert_eq!(survey(0), Disposition::Probe);
    assert_eq!(survey(3), Disposition::Probe);
}

#[test]
fn refinement_spans_the_target() {
    // 200 Hz: 400 edges, about 1 s of integration.
    assert_eq!(plan_refinement(&tenths(2000)), RefinePlan::Measure(400));
}

#[test]
fn refinement_edge_target_is_even_and_clamped() {
    // 151.5 Hz: 303 edges, rounded down to even.
    assert_eq!(plan_refinement(&tenths(1515)), RefinePlan::Measure(302));
    // Very bright estimate clamps at the command maximum.
    assert_eq!(plan_refinement(&tenths(10_000_000)), RefinePlan::Measure(65534));
    // Very dim (but within budget) clamps at the minimum.
    assert_eq!(plan_refinement(&tenths(3)), RefinePlan::Measure(2));
}

#[test]
fn too_dim_keeps_estimate() {
    // 0.2 Hz: a 2-edge measurement is expected to take 5 s > budget.
    assert_eq!(plan_refinement(&tenths(2)), RefinePlan::Keep);
    assert_eq!(plan_refinement(&tenths(0)), RefinePlan::Keep);
    assert_eq!(plan_refinement(&Frequency::Dark), RefinePlan::Keep);
}

#[test]
fn period_conversion() {
    // 400 edges over 12e6 clocks (1 s): 200 Hz.
    assert_eq!(period_hz(400, 12_000_000).map(|f| hz(&f)), Some(200.0));
    // Timed-out channel reports no frequency.
    assert_eq!(period_hz(400, 0), None);
}

#[test]
fn counts_are_centred_unless_one_is_zero() {
    assert_eq!(center_counts(&[1, 2, 3]), [3, 5, 7]);
    assert_eq!(center_counts(&[1, 0, 3]), [2, 0, 6]);
}

// ---------------------------------------------------------------------------
// Memories
// ---------------------------------------------------------------------------

#[test]
fn internal_decodes_fields() {
    let mut buf = [0u8; 256];
    buf[0x04..0x08].copy_from_slice(&6_000_000u32.to_le_bytes()); // 1.0 Hz
    buf[0x08..0x0C].copy_from_slice(&0xffff_ffffu32.to_le_bytes()); // unset
    buf[0x0C..0x10].copy_from_slice(&3_000_000u32.to_le_bytes()); // 0.5 Hz
    buf[0x10..0x17].copy_from_slice(b"SN12345");
    buf[0x2C..0x30].copy_from_slice(b"A-01");
    let ee = decode_internal(&buf);
    assert_eq!(ee.serial, "SN12345");
    assert_eq!(ee.version, "A-01");
    let black_level_hz = ee.black_level.map(|t| t.map_or(0.0, |t| t as f64 / 6e6));
    assert_eq!(black_level_hz, [1.0, 0.0, 0.5]);
}

#[test]
fn external_decodes_spectra_and_checksum() {
    let mut buf = [0u8; 8192];
    buf[0x1E..0x26].copy_from_slice(&0x0102_0304_0506_0708u64.to_le_bytes());
    // Channel 1, band 10 = 2000 Hz/W/nm, which is 2.0 Hz/mW/nm.
    let off = 0x26 + 351 * 4 + 10 * 4;
    buf[off..off + 4].copy_from_slice(&2000.0f32.to_le_bytes());
    // Make the primary-range checksum match.
    let sum = buf[4..0x179A].iter().fold(0u32, |a, &b| a.wrapping_add(u32::from(b))) as u16;
    buf[2..4].copy_from_slice(&sum.to_le_bytes());

    let ee = decode_external(&buf);
    assert!(ee.checksum_ok);
    assert_eq!(ee.cal_date_raw, 0x0102_0304_0506_0708);
    let sensitivity = |ch: usize, band: usize| {
        f32::from_bits(ee.sensitivity[ch * 351 + band]) as f64 / 1000.0
    };
    assert_eq!(sensitivity(1, 10), 2.0);
    assert_eq!(sensitivity(0, 10), 0.0);
}

#[test]
fn external_flags_bad_checksum() {
    let mut buf = [0u8; 8192];
    buf[2] = 0xAA;
    buf[3] = 0xBB;
    buf[100] = 7; // ensure neither range sums to 0xBBAA
    let ee = decode_external(&buf);
    assert!(!ee.checksum_ok);
}

#[test]
fn shorter_checksum_range_counts_too() {
    let mut buf = [0u8; 8192];
    buf[0x1790] = 5; // outside the shorter range only
    buf[10] = 3;
    buf[2] = 3;
    assert!(decode_external(&buf).checksum_ok);
}

#[test]
fn bad_calibrations_matter_on_one_revision() {
    assert!(matches!(check_calibration(false, "A-01"), Err(Error::BadCalibration)));
    assert!(check_calibration(false, "A-02").is_ok());
    assert!(check_calibration(true, "A-01").is_ok());
}

#[test]
fn fields_end_at_a_zero_and_are_trimmed() {
    assert_eq!(ascii_field(b"  abc \0def"), "abc");
    assert_eq!(ascii_field(b"abc"), "abc");
    assert_eq!(ascii_field(b"\0"), "");
    assert_eq!(ascii_field(&[b'a', 0xff, b'b']), "a\u{fffd}b");
}

/// Reading a memory in pieces gives all of it back.
#[test]
fn memories_are_read_in_pieces() {
    for memory in [Memory::Internal, Memory::External] {
        let (size, at) = match memory {
            Memory::Internal => (256, 4),
            Memory::External => (8192, 5),
        };
        let contents: Vec<u8> = (0..size).map(|i| (i * 7 + i / 256) as u8).collect();
        let mut read = MemoryRead::start(memory);
        let mut commands = 0;
        while let Some(Piece { addr, len }) = read.next() {
            let params = read.params();
            match memory {
                Memory::Internal => assert_eq!(params, [addr as u8, len as u8]),
                Memory::External => {
                    assert_eq!(params, [(addr >> 8) as u8, (addr & 0xff) as u8, len as u8])
                }
            }
            let mut recv = [0u8; 64];
            recv[at..at + len].copy_from_slice(&contents[addr..addr + len]);
            read.take(&recv);
            commands += 1;
        }
        assert_eq!(read.image, contents);
        assert_eq!(commands, if size == 256 { 5 } else { 139 });
    }
}

// ---------------------------------------------------------------------------
// Reports
// ---------------------------------------------------------------------------

#[test]
fn reports_hold_the_command_and_its_parameters() {
    let r = build_report(CommandCode::Locked, &[]);
    assert_eq!(&r[..3], &[0, 0x20, 0]);
    let r = build_report(CommandCode::ReadIntEe, &[60, 4]);
    assert_eq!(&r[..4], &[0x08, 60, 4, 0]);
    assert!(r[4..].iter().all(|&b| b == 0));
    for (cc, major, minor) in [
        (CommandCode::ProdName, 0, 0x10),
        (CommandCode::ProdType, 0, 0x11),
        (CommandCode::FirmVer, 0, 0x12),
        (CommandCode::FreqMeas, 1, 0),
        (CommandCode::PeriodMeas, 2, 0),
        (CommandCode::ReadExtEe, 0x12, 0),
        (CommandCode::GetDiffPos, 0x94, 0),
        (CommandCode::LockChallenge, 0x99, 0),
        (CommandCode::LockResponse, 0x9a, 0),
    ] {
        assert_eq!((cc.major(), cc.minor()), (major, minor));
    }
    let f = freq_params(3_000_000);
    assert_eq!(&f[..4], &3_000_000u32.to_le_bytes());
    assert!(f[4..].iter().all(|&b| b == 0));
    assert_eq!(period_params(&[2, 0x1234, 65534], 5), [2, 0, 0x34, 0x12, 0xfe, 0xff, 5, 0]);
}

#[test]
fn replies_are_checked() {
    let mut r = [0u8; 64];
    r[1] = 1;
    assert!(check_report(CommandCode::FreqMeas, &r, 64).is_ok());
    assert!(matches!(
        check_report(CommandCode::FreqMeas, &r, 63),
        Err(Error::ShortRead { got: 63, expected: 64 })
    ));
    assert!(matches!(
        check_report(CommandCode::PeriodMeas, &r, 64),
        Err(Error::CommandEchoMismatch { sent: 2, got: 1 })
    ));
    assert!(check_report(CommandCode::GetDiffPos, &r, 64).is_ok());
    assert!(diffuser_over_sensor(&r));
    assert!(matches!(check_diffuser(true), Err(Error::DiffuserInPath)));
    assert!(check_diffuser(false).is_ok());
    r[0] = 0x83;
    assert!(matches!(
        check_report(CommandCode::FreqMeas, &r, 64),
        Err(Error::InstrumentError(0x83))
    ));
    assert!(check_sent(64).is_ok());
    assert!(matches!(check_sent(0), Err(Error::ShortWrite { sent: 0, expected: 64 })));

    let mut r = [0u8; 64];
    assert!(!is_locked(&r));
    r[3] = 1;
    assert!(is_locked(&r));
    r[2] = 1;
    assert!(!is_locked(&r));
    r[3] = 2;
    r[4] = 0;
    assert_eq!(product_type(&r), 2);
    assert!(is_munki_display(product_type(&r)));
    r[2..9].copy_from_slice(b"i1D \0xy");
    assert_eq!(reply_text(&r), "i1D");
    r[2..14].copy_from_slice(&[1, 0, 0, 0, 0, 1, 0, 0, 0xff, 0xff, 0xff, 0xff]);
    assert_eq!(channel_numbers(&r), [1, 256, u32::MAX]);
    assert!(select_calibration(CalibrationId(0)).is_ok());
    assert!(matches!(
        select_calibration(CalibrationId(1)),
        Err(Error::CalIndexOutOfRange { got: 1, max: 0 })
    ));
}

#[test]
fn odd_versions_are_read() {
    assert_eq!(parse_version(""), (0, 0));
    assert_eq!(parse_version("v7"), (7, 0));
    assert_eq!(parse_version("x.3"), (3, 0));
    assert_eq!(parse_version("1..2"), (1, 0));
    assert_eq!(parse_version("99999999999.1"), (0, 1));
}

// ---------------------------------------------------------------------------
// Unlocking
// ---------------------------------------------------------------------------

#[test]
fn keys_are_tried_until_one_fits() {
    let mut state = UnlockState::start();
    let keys = unlock_keys();
    let challenge = [0x11u8; 64];
    for (i, key) in keys.iter().enumerate() {
        let (next, response) = state.challenged(&challenge);
        assert_eq!(response, unlock_response(key.key, &challenge));
        let mut reply = [0u8; 64];
        if i == 3 {
            reply[2] = 0x77;
        }
        state = next.responded(&reply);
        if i == 3 {
            state = state.status_read(false);
            assert_eq!(state.outcome().unwrap(), key.name);
            return;
        }
    }
    unreachable!();
}

// ---------------------------------------------------------------------------
// The adaptive measurement
// ---------------------------------------------------------------------------

fn numbers(e: Emissive, n: [u32; 3]) -> Emissive {
    e.answered(Reply::Numbers(n)).unwrap()
}

fn frequencies(e: &Emissive) -> [f64; 3] {
    e.frequencies().unwrap().map(|f| hz(&f))
}

#[test]
fn a_bright_patch_takes_one_command() {
    let e = Emissive::start();
    assert_eq!(e.next(), Some(Request::Frequency { clocks: SURVEY_CLOCKS }));
    let e = numbers(e, [5000, 4000, 400]);
    assert_eq!(e.next(), None);
    // Half a count is added to each.
    assert_eq!(frequencies(&e), [10_001.0, 8001.0, 801.0]);
}

#[test]
fn a_saturated_channel_ends_the_measurement() {
    let e = Emissive::start();
    assert!(matches!(
        e.answered(Reply::Numbers([125_001, 1000, 1000])),
        Err(Error::Saturated)
    ));
    assert!(e.answered(Reply::Numbers([124_999, 1000, 1000])).is_ok());
}

#[test]
fn dim_channels_are_probed_and_refined() {
    let e = numbers(Emissive::start(), [5000, 100, 0]);
    assert_eq!(e.next(), Some(Request::Period { edges: [2, 2, 2], mask: 0b100 }));
    // 2 edges in 0.1 s: 10 Hz.
    let e = numbers(e, [0, 0, 1_200_000]);
    // 200 Hz and 10 Hz: 400 and 20 edges.
    assert_eq!(e.next(), Some(Request::Period { edges: [0, 400, 20], mask: 0b110 }));
    let e = numbers(e, [0, 12_000_000, 0]);
    assert_eq!(e.next(), None);
    // The second was refined, the third timed out and keeps its estimate.
    assert_eq!(frequencies(&e), [10_000.0, 200.0, 10.0]);
}

#[test]
fn a_probe_is_not_repeated() {
    let e = numbers(Emissive::start(), [5000, 5000, 0]);
    // One cycle a second: the refinement would be the probe again.
    let e = numbers(e, [0, 0, 12_000_000]);
    assert_eq!(e.next(), None);
    assert_eq!(frequencies(&e)[2], 1.0);
}

#[test]
fn a_channel_without_edges_is_dark() {
    let e = numbers(Emissive::start(), [0, 0, 0]);
    assert_eq!(e.next(), Some(Request::Period { edges: [2, 2, 2], mask: 0b111 }));
    let e = numbers(e, [0, 0, 0]);
    assert_eq!(frequencies(&e), [0.0; 3]);
}

#[test]
fn a_failed_period_falls_back_to_a_long_count() {
    let e = numbers(Emissive::start(), [0, 0, 0]);
    let reply = period_reply(Err(Error::InstrumentError(STATUS_PERIOD_FAIL))).unwrap();
    let e = e.answered(reply).unwrap();
    assert_eq!(e.next(), Some(Request::Frequency { clocks: FALLBACK_CLOCKS }));
    let e = numbers(e, [16, 0, 32]);
    assert_eq!(frequencies(&e), [1.0, 0.0, 2.0]);
    assert!(matches!(period_reply(Ok([1, 2, 3])), Ok(Reply::Numbers([1, 2, 3]))));
    assert!(matches!(
        period_reply(Err(Error::InstrumentError(1))),
        Err(Error::InstrumentError(1))
    ));
}

#[test]
fn readings_are_clamped_and_checked() {
    let rgb = finish_rgb(&[double(-1.0), double(0.0), double(250e3)]).unwrap();
    assert_eq!(rgb, [double(0.0), double(0.0), double(250e3)]);
    // What is not a number is no light either, whatever its sign.
    let rgb = finish_rgb(&[double(f64::NAN), double(-f64::NAN), double(-0.0)]).unwrap();
    assert_eq!(rgb, [double(0.0); 3]);
    let rgb = finish_rgb(&[double(f64::NEG_INFINITY), double(5e-324), double(7.5)]).unwrap();
    assert_eq!(rgb, [double(0.0), double(5e-324), double(7.5)]);
    assert!(matches!(
        finish_rgb(&[double(1.0), double(2.0), double(250_000.1)]),
        Err(Error::Saturated)
    ));
}
