use tristim::driver::colorimeter::Error;
use tristim::driver::spyder::spyderx::{
    ambient_command, ascii_digits, calibration_command, corrected_counts, counts_of, dark_offsets,
    encode_measure_request, measure_command, parse_calibration, parse_raw_measurement, parse_setup,
    read_ambient, read_hw_version, read_serial, Calibration, DarkOffsets, RawMeasurement, Setup,
};

/// Build a calibration reply payload: index, v1, v2, 9 f32-LE matrix entries
/// (row-major), v3, checksum.
fn cal_payload(index: u8, v1: u8, v2: u16, matrix: [[f32; 3]; 3], v3: u8) -> Vec<u8> {
    let mut p = vec![0u8; 0x2A];
    p[0] = index;
    p[1] = v1;
    p[2..4].copy_from_slice(&v2.to_be_bytes());
    for k in 0..9 {
        p[4 + k * 4..8 + k * 4].copy_from_slice(&matrix[k / 3][k % 3].to_le_bytes());
    }
    p[0x28] = v3;
    let sum: u8 = p[..0x29].iter().fold(0u8, |a, &b| a.wrapping_add(b));
    p[0x29] = sum;
    p
}

fn calibration(matrix: [[f32; 3]; 3]) -> Calibration {
    Calibration { index: 0, v1: 3, v2: 714, matrix: matrix.map(|r| r.map(f32::to_bits)), v3: 0 }
}

#[test]
fn calibration_parses_row_major() {
    let m = [[1.0f32, 2.0, 3.0], [4.0, 5.0, 6.0], [7.0, 8.0, 9.0]];
    let p = cal_payload(2, 3, 714, m, 0xAB);
    let cal = parse_calibration(&p, 2).unwrap();
    assert_eq!(cal.v1, 3);
    assert_eq!(cal.v2, 714);
    assert_eq!(cal.v3, 0xAB);
    // Row-major: the second wire float is matrix[0][1], not matrix[1][0].
    assert_eq!(f32::from_bits(cal.matrix[0][1]), 2.0);
    assert_eq!(f32::from_bits(cal.matrix[1][0]), 4.0);
    assert_eq!(f32::from_bits(cal.matrix[2][2]), 9.0);
}

#[test]
fn calibration_rejects_index_mismatch() {
    let p = cal_payload(1, 3, 714, [[0.0; 3]; 3], 0);
    assert!(parse_calibration(&p, 0).is_err());
}

#[test]
fn calibration_rejects_bad_lengths() {
    let p = cal_payload(1, 3, 714, [[0.0; 3]; 3], 0);
    assert!(parse_calibration(&p, 1).is_ok());
    assert!(matches!(parse_calibration(&p[..0x29], 1), Err(Error::Parse(_))));
}

#[test]
fn setup_parses_and_checks_v1() {
    let p = [3u8, 10, 11, 12, 13, 1, 2, 3, 4, 0];
    let s = parse_setup(&p, 3).unwrap();
    assert_eq!(s.s2, [10, 11, 12, 13]);
    assert_eq!(s.s3, [1, 2, 3, 4]);
    assert!(parse_setup(&p, 2).is_err());
}

#[test]
fn measure_request_layout() {
    let cal = calibration([[0.0; 3]; 3]);
    let setup = Setup { s1: 3, s2: [9, 8, 7, 6], s3: [0; 4] };
    let req = encode_measure_request(&cal, &setup);
    assert_eq!(req, [0x02, 0xCA, 3, 9, 8, 7, 6]); // 714 = 0x02CA BE
    let c = measure_command(&cal, &setup);
    assert_eq!(c.payload, req);
}

#[test]
fn raw_measurement_is_u16_be() {
    let p = [0x01, 0x00, 0x00, 0x02, 0x12, 0x34, 0xFF, 0xFF];
    let r = parse_raw_measurement(&p).unwrap();
    assert_eq!(r.0, [256, 2, 0x1234, 65535]);
    assert!(parse_raw_measurement(&p[..7]).is_err());
}

#[test]
fn conversion_subtracts_black_and_ignores_ir() {
    let cal = calibration([[1.0, 0.0, 0.0], [0.0, 1.0, 0.0], [0.0, 0.0, 1.0]]);
    let setup = Setup { s1: 3, s2: [0; 4], s3: [2, 2, 2, 2] };
    let dark = DarkOffsets { x: 1, y: 1, z: 1 };
    // IR channel huge: must not affect XYZ.
    let raw = RawMeasurement([103, 53, 3, 60000]);
    let counts = corrected_counts(&raw, &setup, &dark);
    let xyz: Vec<f64> = cal
        .matrix
        .iter()
        .map(|row| (0..3).map(|j| f32::from_bits(row[j]) as f64 * counts[j] as f64).sum())
        .collect();
    assert_eq!(xyz[0], 100.0);
    assert_eq!(xyz[1], 50.0);
    assert_eq!(xyz[2], 0.0); // 3 - 2 - 1 = 0, clamped at 0
}

#[test]
fn a_dark_reading_becomes_black() {
    let setup = Setup { s1: 3, s2: [0; 4], s3: [2, 3, 4, 5] };
    let raw = RawMeasurement([7, 1, 4, 9]);
    let dark = dark_offsets(&raw, &setup);
    assert_eq!(dark, DarkOffsets { x: 5, y: -2, z: 0 });
    assert_eq!(corrected_counts(&raw, &setup, &dark), [0, 0, 0]);
    let brighter = RawMeasurement([17, 11, 14, 9]);
    assert_eq!(corrected_counts(&brighter, &setup, &dark), [10, 10, 10]);
    assert_eq!(DarkOffsets::default(), DarkOffsets { x: 0, y: 0, z: 0 });
}

#[test]
fn counts_leave_the_infrared_out() {
    let raws = vec![RawMeasurement([10, 20, 30, 40]), RawMeasurement([1, 2, 3, 4])];
    assert_eq!(counts_of(&raws), vec![vec![10, 20, 30], vec![1, 2, 3]]);
}

#[test]
fn device_texts_are_read() {
    assert_eq!(ascii_digits(b"123abc"), Some(123));
    assert_eq!(ascii_digits(b"abc"), None);
    assert_eq!(ascii_digits(b""), None);
    assert!(calibration_command(3).is_ok());
    assert!(matches!(
        calibration_command(4),
        Err(Error::CalIndexOutOfRange { got: 4, max: 3 })
    ));
    assert_eq!(ambient_command(101, 0x10).payload, [101, 0x10]);
    assert_eq!(read_ambient(&[1, 2, 3, 4, 0, 0]), (0x0102, 0x0304));
}

#[test]
fn versions_and_serials_are_read() {
    let mut reply = [0u8; 0x17];
    reply[..4].copy_from_slice(b"1.07");
    assert_eq!(read_hw_version(&reply).unwrap(), (1, 7));
    reply[0] = b'x';
    match read_hw_version(&reply) {
        Err(Error::BadVersionString(bytes)) => assert_eq!(bytes, reply),
        other => panic!("read {other:?}"),
    }
    let mut serial = [0u8; 0x25];
    serial[4..12].copy_from_slice(b"87000216");
    assert_eq!(read_serial(&serial), "87000216");
}
