//! The first SpyderX: its commands, replies and dark calibration.
use vstd::prelude::*;
use vstd::slice::slice_subrange;

use crate::driver::bytes::{
    be16, copy_of, field_text, high, is_ascii_digit, le32, leading_number, lemma_small_number, low,
    no_digit_no_number, parse_leading_number, read_be16, read_field, read_le32,
};
use crate::driver::colorimeter::Error;
use crate::driver::measurement::ParseError;
use crate::driver::spyder::protocol::is_command;
use crate::driver::spyder::transport::Command;

verus! {

/// Command opcodes of the first SpyderX.
#[derive(Clone, Copy, Debug, PartialEq, Eq, Structural)]
pub enum Opcode {
    /// Hardware version; 23 bytes come back.
    GetHwVersion,
    /// Serial number; 37 bytes come back.
    GetSerial,
    /// Calibration of an index; 42 bytes come back, checksummed.
    GetCalibration,
    /// Measurement setup of a gain selector; 10 bytes come back, checksummed.
    MeasSetup,
    /// An emissive measurement; 8 bytes come back.
    Measure,
    /// An ambient measurement; 6 bytes come back.
    AmbientMeasure,
}

impl Opcode {
    /// The opcode's byte.
    pub open spec fn byte(self) -> u8 {
        match self {
            Opcode::GetHwVersion => 0xD9,
            Opcode::GetSerial => 0xC2,
            Opcode::GetCalibration => 0xCB,
            Opcode::MeasSetup => 0xC3,
            Opcode::Measure => 0xD2,
            Opcode::AmbientMeasure => 0xD4,
        }
    }

    /// The opcode's byte.
    pub fn code(self) -> (res: u8)
        ensures
            res == self.byte(),
    {
        match self {
            Opcode::GetHwVersion => 0xD9,
            Opcode::GetSerial => 0xC2,
            Opcode::GetCalibration => 0xCB,
            Opcode::MeasSetup => 0xC3,
            Opcode::Measure => 0xD2,
            Opcode::AmbientMeasure => 0xD4,
        }
    }
}

/// Number of calibrations on the device.
pub const NUM_CALIBRATIONS: u8 = 4;

/// Per-unit calibration, its numbers as single-precision patterns.
#[derive(Clone, Copy, Debug)]
pub struct Calibration {
    /// Echoed calibration index.
    pub index: u8,
    /// Gain selector.
    pub v1: u8,
    /// Integration time in milliseconds.
    pub v2: u16,
    /// Row `i`, column `j` takes channel `j` into XYZ component `i`.
    pub matrix: [[u32; 3]; 3],
    /// A byte of unknown use.
    pub v3: u8,
}

/// Measurement setup.
#[derive(Clone, Copy, Debug)]
pub struct Setup {
    /// Echoed gain selector.
    pub s1: u8,
    /// Per-channel trim, passed on with a measurement.
    pub s2: [u8; 4],
    /// Per-channel black level.
    pub s3: [u8; 4],
}

/// Raw counts of the X, Y, Z and infrared channels. The infrared channel takes
/// no part in the conversion.
#[derive(Clone, Copy, Debug)]
pub struct RawMeasurement(pub [u16; 4]);

pub open spec fn calibration_says(p: Seq<u8>, c: Calibration) -> bool {
    &&& c.index == p[0]
    &&& c.v1 == p[1]
    &&& c.v2 == be16(p[2], p[3])
    &&& forall|i: int, j: int|
        0 <= i < 3 && 0 <= j < 3 ==> #[trigger] c.matrix@[i]@[j] == le32(p, 4 + (i * 3 + j) * 4)
    &&& c.v3 == p[0x28]
}

/// Reads a calibration reply of 42 bytes.
pub fn parse_calibration(payload: &[u8], expected_index: u8) -> (res: Result<Calibration, Error>)
    ensures
        match res {
            Ok(c) => payload@.len() == 0x2A && payload@[0] == expected_index && calibration_says(
                payload@,
                c,
            ),
            Err(e) => if payload@.len() != 0x2A {
                e == Error::Parse(
                    ParseError::BadLength { expected: 0x2A, got: payload@.len() as usize },
                )
            } else {
                payload@[0] != expected_index && e == Error::Parse(
                    ParseError::CalIndexMismatch { expected: expected_index, got: payload@[0] },
                )
            },
        },
{
    if payload.len() != 0x2A {
        return Err(Error::Parse(ParseError::BadLength { expected: 0x2A, got: payload.len() }));
    }
    let p = payload;
    if p[0] != expected_index {
        return Err(
            Error::Parse(ParseError::CalIndexMismatch { expected: expected_index, got: p[0] }),
        );
    }
    let row0: [u32; 3] = [read_le32(p, 4), read_le32(p, 8), read_le32(p, 12)];
    let row1: [u32; 3] = [read_le32(p, 16), read_le32(p, 20), read_le32(p, 24)];
    let row2: [u32; 3] = [read_le32(p, 28), read_le32(p, 32), read_le32(p, 36)];
    let c = Calibration {
        index: p[0],
        v1: p[1],
        v2: read_be16(p[2], p[3]),
        matrix: [row0, row1, row2],
        v3: p[0x28],
    };
    assert forall|i: int, j: int| 0 <= i < 3 && 0 <= j < 3 implies #[trigger] c.matrix@[i]@[j]
        == le32(p@, 4 + (i * 3 + j) * 4) by {
        assert(c.matrix@[0] == row0 && c.matrix@[1] == row1 && c.matrix@[2] == row2);
    }
    Ok(c)
}

pub open spec fn setup_says(p: Seq<u8>, s: Setup) -> bool {
    &&& s.s1 == p[0]
    &&& s.s2@ == p.subrange(1, 5)
    &&& s.s3@ == p.subrange(5, 9)
}

/// Reads a setup reply of 10 bytes.
pub fn parse_setup(payload: &[u8], expected_v1: u8) -> (res: Result<Setup, Error>)
    ensures
        match res {
            Ok(s) => payload@.len() == 0x0A && payload@[0] == expected_v1 && setup_says(payload@, s),
            Err(e) => if payload@.len() != 0x0A {
                e == Error::Parse(
                    ParseError::BadLength { expected: 0x0A, got: payload@.len() as usize },
                )
            } else {
                payload@[0] != expected_v1 && e == Error::Parse(
                    ParseError::SetupV1Mismatch { expected: expected_v1, got: payload@[0] },
                )
            },
        },
{
    if payload.len() != 0x0A {
        return Err(Error::Parse(ParseError::BadLength { expected: 0x0A, got: payload.len() }));
    }
    let p = payload;
    if p[0] != expected_v1 {
        return Err(Error::Parse(ParseError::SetupV1Mismatch { expected: expected_v1, got: p[0] }));
    }
    let s = Setup { s1: p[0], s2: [p[1], p[2], p[3], p[4]], s3: [p[5], p[6], p[7], p[8]] };
    assert(s.s2@ == p@.subrange(1, 5));
    assert(s.s3@ == p@.subrange(5, 9));
    Ok(s)
}

/// Reads a measurement reply of 8 bytes.
pub fn parse_raw_measurement(payload: &[u8]) -> (res: Result<RawMeasurement, Error>)
    ensures
        match res {
            Ok(r) => payload@.len() == 8 && forall|i: int|
                0 <= i < 4 ==> #[trigger] r.0@[i] == be16(payload@[2 * i], payload@[2 * i + 1]),
            Err(e) => payload@.len() != 8 && e == Error::Parse(
                ParseError::BadLength { expected: 8, got: payload@.len() as usize },
            ),
        },
{
    if payload.len() != 8 {
        return Err(Error::Parse(ParseError::BadLength { expected: 8, got: payload.len() }));
    }
    let p = payload;
    Ok(
        RawMeasurement(
            [
                read_be16(p[0], p[1]),
                read_be16(p[2], p[3]),
                read_be16(p[4], p[5]),
                read_be16(p[6], p[7]),
            ],
        ),
    )
}

/// The payload of a measure command.
pub open spec fn measure_request(c: Calibration, s: Setup) -> Seq<u8> {
    seq![(c.v2 / 256) as u8, (c.v2 % 256) as u8, s.s1] + s.s2@
}

/// Encodes the payload of a measure command.
pub fn encode_measure_request(cal: &Calibration, setup: &Setup) -> (res: [u8; 7])
    ensures
        res@ == measure_request(*cal, *setup),
{
    let t = &setup.s2;
    let res: [u8; 7] = [high(cal.v2), low(cal.v2), setup.s1, t[0], t[1], t[2], t[3]];
    assert(res@ == measure_request(*cal, *setup));
    res
}

// ---------------------------------------------------------------------------
// Commands
// ---------------------------------------------------------------------------

fn one_byte(b: u8) -> (res: Vec<u8>)
    ensures
        res@ == seq![b],
{
    let mut v: Vec<u8> = Vec::new();
    v.push(b);
    assert(v@ == seq![b]);
    v
}

/// Asks for the hardware version.
pub fn version_command() -> (res: Command)
    ensures
        is_command(res, Opcode::GetHwVersion.byte(), seq![], 0x17, false, 5000),
{
    Command {
        opcode: Opcode::GetHwVersion.code(),
        payload: Vec::new(),
        reply_size: 0x17,
        checksummed: false,
        timeout_ms: 5000,
    }
}

/// Asks for the serial number.
pub fn serial_command() -> (res: Command)
    ensures
        is_command(res, Opcode::GetSerial.byte(), seq![], 0x25, false, 5000),
{
    Command {
        opcode: Opcode::GetSerial.code(),
        payload: Vec::new(),
        reply_size: 0x25,
        checksummed: false,
        timeout_ms: 5000,
    }
}

/// Asks for a calibration. An index that the device does not have is refused
/// without asking.
pub fn calibration_command(cal_index: u8) -> (res: Result<Command, Error>)
    ensures
        match res {
            Ok(c) => cal_index < NUM_CALIBRATIONS && is_command(
                c,
                Opcode::GetCalibration.byte(),
                seq![cal_index],
                0x2A,
                true,
                5000,
            ),
            Err(e) => cal_index >= NUM_CALIBRATIONS && e == (Error::CalIndexOutOfRange {
                got: cal_index,
                max: 3,
            }),
        },
{
    if cal_index >= NUM_CALIBRATIONS {
        return Err(Error::CalIndexOutOfRange { got: cal_index, max: NUM_CALIBRATIONS - 1 });
    }
    Ok(
        Command {
            opcode: Opcode::GetCalibration.code(),
            payload: one_byte(cal_index),
            reply_size: 0x2A,
            checksummed: true,
            timeout_ms: 5000,
        },
    )
}

/// Asks for the setup of a gain selector.
pub fn setup_command(v1: u8) -> (res: Command)
    ensures
        is_command(res, Opcode::MeasSetup.byte(), seq![v1], 0x0A, true, 5000),
{
    Command {
        opcode: Opcode::MeasSetup.code(),
        payload: one_byte(v1),
        reply_size: 0x0A,
        checksummed: true,
        timeout_ms: 5000,
    }
}

/// Asks for a measurement. The reply has no checksum.
pub fn measure_command(cal: &Calibration, setup: &Setup) -> (res: Command)
    ensures
        is_command(res, Opcode::Measure.byte(), measure_request(*cal, *setup), 8, false, 5000),
{
    let b = encode_measure_request(cal, setup);
    let mut payload: Vec<u8> = Vec::new();
    payload.push(b[0]);
    payload.push(b[1]);
    payload.push(b[2]);
    payload.push(b[3]);
    payload.push(b[4]);
    payload.push(b[5]);
    payload.push(b[6]);
    assert(payload@ == b@);
    Command {
        opcode: Opcode::Measure.code(),
        payload,
        reply_size: 8,
        checksummed: false,
        timeout_ms: 5000,
    }
}

/// Asks for an ambient measurement.
pub fn ambient_command(integration: u8, gain_bits: u8) -> (res: Command)
    ensures
        is_command(res, Opcode::AmbientMeasure.byte(), seq![integration, gain_bits], 6, false, 5000),
{
    let mut payload: Vec<u8> = Vec::new();
    payload.push(integration);
    payload.push(gain_bits);
    assert(payload@ == seq![integration, gain_bits]);
    Command {
        opcode: Opcode::AmbientMeasure.code(),
        payload,
        reply_size: 6,
        checksummed: false,
        timeout_ms: 5000,
    }
}

// ---------------------------------------------------------------------------
// Replies
// ---------------------------------------------------------------------------

/// The number at the start of some bytes.
pub fn ascii_digits(bytes: &[u8]) -> (res: Option<u32>)
    ensures
        res == leading_number(bytes@),
{
    assert(bytes@.subrange(0, bytes@.len() as int) == bytes@);
    parse_leading_number(bytes, 0, bytes.len())
}

/// Reads a version reply, major and minor.
pub fn read_hw_version(reply: &[u8]) -> (res: Result<(u32, u32), Error>)
    requires
        reply@.len() == 0x17,
    ensures
        match res {
            Ok(v) => leading_number(reply@.subrange(0, 1)) == Some(v.0) && leading_number(
                reply@.subrange(2, 4),
            ) == Some(v.1),
            Err(e) => {
                &&& leading_number(reply@.subrange(0, 1)) is None || leading_number(
                    reply@.subrange(2, 4),
                ) is None
                &&& e matches Error::BadVersionString(v) && v@ == reply@
            },
        },
{
    match (parse_leading_number(reply, 0, 1), parse_leading_number(reply, 2, 4)) {
        (Some(major), Some(minor)) => Ok((major, minor)),
        _ => {
            assert(reply@.subrange(0, reply@.len() as int) == reply@);
            Err(Error::BadVersionString(copy_of(reply, 0, reply.len())))
        },
    }
}

/// Reads a serial-number reply.
pub fn read_serial(reply: &[u8]) -> (res: String)
    requires
        reply@.len() == 0x25,
    ensures
        res@ == field_text(reply@.subrange(4, 12)),
{
    read_field(slice_subrange(reply, 4, 12))
}

/// Reads an ambient reply: the wideband and infrared counts.
pub fn read_ambient(reply: &[u8]) -> (res: (u16, u16))
    requires
        reply@.len() == 6,
    ensures
        res.0 == be16(reply@[0], reply@[1]),
        res.1 == be16(reply@[2], reply@[3]),
{
    (read_be16(reply[0], reply[1]), read_be16(reply[2], reply[3]))
}

// ---------------------------------------------------------------------------
// Counts
// ---------------------------------------------------------------------------

/// Dark offsets of the X, Y and Z channels, in counts.
#[derive(Clone, Copy, Debug, PartialEq, Eq, Structural)]
pub struct DarkOffsets {
    pub x: i32,
    pub y: i32,
    pub z: i32,
}

impl Default for DarkOffsets {
    fn default() -> (res: Self)
        ensures
            res == (DarkOffsets { x: 0, y: 0, z: 0 }),
    {
        DarkOffsets { x: 0, y: 0, z: 0 }
    }
}

/// The dark offsets that a measurement with the lens cap on gives: what the
/// device's own black levels leave.
pub fn dark_offsets(raw: &RawMeasurement, setup: &Setup) -> (res: DarkOffsets)
    ensures
        res.x == raw.0@[0] - setup.s3@[0],
        res.y == raw.0@[1] - setup.s3@[1],
        res.z == raw.0@[2] - setup.s3@[2],
{
    let r = &raw.0;
    let b = &setup.s3;
    DarkOffsets {
        x: r[0] as i32 - b[0] as i32,
        y: r[1] as i32 - b[1] as i32,
        z: r[2] as i32 - b[2] as i32,
    }
}

/// A count above its floor, at least zero.
pub open spec fn above_floor(raw: u16, black: u8, dark: i32) -> int {
    if raw - black - dark > 0 {
        raw - black - dark
    } else {
        0
    }
}

fn less_floor(raw: u16, black: u8, dark: i32) -> (res: i64)
    ensures
        res == above_floor(raw, black, dark),
{
    let d: i64 = raw as i64 - black as i64 - dark as i64;
    if d > 0 {
        d
    } else {
        0
    }
}

/// The X, Y and Z counts above the device's black levels and the dark offsets,
/// at least zero: what the calibration matrix is applied to.
pub fn corrected_counts(raw: &RawMeasurement, setup: &Setup, dark: &DarkOffsets) -> (res: [i64; 3])
    ensures
        res@[0] == above_floor(raw.0@[0], setup.s3@[0], dark.x),
        res@[1] == above_floor(raw.0@[1], setup.s3@[1], dark.y),
        res@[2] == above_floor(raw.0@[2], setup.s3@[2], dark.z),
{
    let r = &raw.0;
    let b = &setup.s3;
    [less_floor(r[0], b[0], dark.x), less_floor(r[1], b[1], dark.y), less_floor(r[2], b[2], dark.z)]
}

/// The measurement that set the dark offsets reads as black.
pub proof fn dark_reading_is_black(raw: u16, black: u8, dark: i32)
    requires
        dark == raw - black,
    ensures
        above_floor(raw, black, dark) == 0,
{
}

/// The X, Y and Z counts of some readings; the infrared channel is left out.
pub fn counts_of(raws: &Vec<RawMeasurement>) -> (res: Vec<Vec<u32>>)
    ensures
        res@.len() == raws@.len(),
        forall|k: int|
            0 <= k < raws@.len() ==> (#[trigger] res@[k])@ == raws@[k].0@.take(3).map_values(
                |c: u16| c as u32,
            ),
{
    let mut out: Vec<Vec<u32>> = Vec::new();
    let mut k: usize = 0;
    while k < raws.len()
        invariant
            k <= raws@.len(),
            out@.len() == k,
            forall|j: int|
                0 <= j < k ==> (#[trigger] out@[j])@ == raws@[j].0@.take(3).map_values(
                    |c: u16| c as u32,
                ),
        decreases raws@.len() - k,
    {
        let r = &raws[k].0;
        let mut row: Vec<u32> = Vec::new();
        row.push(r[0] as u32);
        row.push(r[1] as u32);
        row.push(r[2] as u32);
        assert(row@ == r@.take(3).map_values(|c: u16| c as u32));
        out.push(row);
        k += 1;
    }
    out
}

/// A calibration of the first SpyderX is read from its reply byte by byte, the matrix
/// row by row, the least significant byte of a number first.
pub proof fn calibrations_are_read_from_their_bytes(
    payload: &[u8],
    index: u8,
    res: Result<Calibration, Error>,
    i: int,
    j: int,
)
    requires
        call_ensures(parse_calibration, (payload, index), res),
        0 <= i < 3,
        0 <= j < 3,
    ensures
        res is Ok <==> payload@.len() == 42 && payload@[0] == index,
        res matches Ok(c) ==> {
            let p = payload@;
            let k = 4 + 12 * i + 4 * j;
            &&& c.index == index
            &&& c.v1 == p[1]
            &&& c.v2 == 256 * p[2] + p[3]
            &&& c.matrix@[i]@[j] == p[k] + 256 * p[k + 1] + 65536 * p[k + 2] + 16777216 * p[k + 3]
            &&& c.v3 == p[40]
        },
        res matches Err(e) ==> e is Parse,
{
}

/// A setup of the first SpyderX is read from its reply byte by byte: the gain
/// selector, four trims and four black levels.
pub proof fn setups_are_read_from_their_bytes(
    payload: &[u8],
    v1: u8,
    res: Result<Setup, Error>,
    j: int,
)
    requires
        call_ensures(parse_setup, (payload, v1), res),
        0 <= j < 4,
    ensures
        res is Ok <==> payload@.len() == 10 && payload@[0] == v1,
        res matches Ok(s) ==> s.s1 == v1 && s.s2@[j] == payload@[1 + j] && s.s3@[j] == payload@[5
            + j],
        res matches Err(e) ==> e is Parse,
{
}

/// The counts of a measurement are the pairs of bytes of its reply, in order.
pub proof fn counts_are_read_from_their_bytes(
    payload: &[u8],
    res: Result<RawMeasurement, Error>,
    i: int,
)
    requires
        call_ensures(parse_raw_measurement, (payload,), res),
        0 <= i < 4,
    ensures
        res is Ok <==> payload@.len() == 8,
        res matches Ok(r) ==> r.0@[i] == 256 * payload@[2 * i] + payload@[2 * i + 1],
{
}

/// The commands of the first SpyderX as they go over the wire.
pub proof fn commands_are_told_apart(
    index: u8,
    v1: u8,
    cal: Calibration,
    setup: Setup,
    version: Command,
    serial: Command,
    calibration: Result<Command, Error>,
    setting: Command,
    measure: Command,
    i: int,
)
    requires
        call_ensures(version_command, (), version),
        call_ensures(serial_command, (), serial),
        call_ensures(calibration_command, (index,), calibration),
        call_ensures(setup_command, (v1,), setting),
        call_ensures(measure_command, (&cal, &setup), measure),
        0 <= i < 4,
    ensures
        version.opcode == 0xD9 && serial.opcode == 0xC2 && setting.opcode == 0xC3 && measure.opcode
            == 0xD2,
        version.reply_size == 23 && serial.reply_size == 37 && setting.reply_size == 10
            && measure.reply_size == 8,
        !version.checksummed && !serial.checksummed && setting.checksummed && !measure.checksummed,
        version.payload@.len() == 0 && serial.payload@.len() == 0,
        calibration is Ok <==> index < 4,
        calibration matches Ok(c) ==> c.opcode == 0xCB && c.reply_size == 42 && c.checksummed
            && c.payload@.len() == 1 && c.payload@[0] == index,
        calibration matches Err(e) ==> e == (Error::CalIndexOutOfRange { got: index, max: 3 }),
        setting.payload@.len() == 1 && setting.payload@[0] == v1,
        measure.payload@.len() == 7,
        256 * measure.payload@[0] + measure.payload@[1] == cal.v2,
        measure.payload@[2] == setup.s1,
        measure.payload@[3 + i] == setup.s2@[i],
{
}

/// An ambient command carries the integration and the gain, and its reply the
/// wideband and then the infrared count.
pub proof fn ambient_readings_are_pairs(
    integration: u8,
    gain: u8,
    command: Command,
    reply: &[u8],
    counts: (u16, u16),
)
    requires
        reply@.len() == 6,
        call_ensures(ambient_command, (integration, gain), command),
        call_ensures(read_ambient, (reply,), counts),
    ensures
        command.opcode == 0xD4 && command.reply_size == 6 && !command.checksummed,
        command.payload@.len() == 2,
        command.payload@[0] == integration && command.payload@[1] == gain,
        counts.0 == 256 * reply@[0] + reply@[1],
        counts.1 == 256 * reply@[2] + reply@[3],
{
}

/// A count, its black level and its dark offset add up, channel by channel, unless
/// the count is below the two, which reads as nothing. So the very reading that the
/// offsets were taken from reads as black.
pub proof fn counts_are_taken_above_the_dark(
    raw: RawMeasurement,
    setup: Setup,
    dark: DarkOffsets,
    res: [i64; 3],
    capped: DarkOffsets,
    black: [i64; 3],
    i: int,
)
    requires
        call_ensures(corrected_counts, (&raw, &setup, &dark), res),
        call_ensures(dark_offsets, (&raw, &setup), capped),
        call_ensures(corrected_counts, (&raw, &setup, &capped), black),
        0 <= i < 3,
    ensures
        ({
            let d = if i == 0 {
                dark.x
            } else if i == 1 {
                dark.y
            } else {
                dark.z
            };
            let floor = setup.s3@[i] + d;
            &&& raw.0@[i] >= floor ==> res@[i] + floor == raw.0@[i]
            &&& raw.0@[i] < floor ==> res@[i] == 0
        }),
        capped.x + setup.s3@[0] == raw.0@[0],
        capped.y + setup.s3@[1] == raw.0@[1],
        capped.z + setup.s3@[2] == raw.0@[2],
        black@[i] == 0,
{
}

/// A hardware version is read from ASCII digits, one for the major number and up to
/// two for the minor.
pub proof fn versions_are_read_from_their_digits(reply: &[u8], res: Result<(u32, u32), Error>)
    requires
        reply@.len() == 23,
        call_ensures(read_hw_version, (reply,), res),
    ensures
        ({
            let r = reply@;
            let digit = |b: u8| 48 <= b <= 57;
            &&& res is Ok <==> digit(r[0]) && digit(r[2])
            &&& res matches Ok(v) ==> {
                &&& v.0 == r[0] - 48
                &&& digit(r[3]) ==> v.1 == 10 * (r[2] - 48) + (r[3] - 48)
                &&& !digit(r[3]) ==> v.1 == r[2] - 48
            }
        }),
{
    let r = reply@;
    let a = r.subrange(0, 1);
    let b = r.subrange(2, 4);
    assert(a[0] == r[0] && b[0] == r[2] && b[1] == r[3]);
    if is_ascii_digit(r[0]) {
        lemma_small_number(a, 1);
    } else {
        no_digit_no_number(a);
    }
    if is_ascii_digit(r[2]) {
        if is_ascii_digit(r[3]) {
            lemma_small_number(b, 2);
        } else {
            lemma_small_number(b, 1);
        }
    } else {
        no_digit_no_number(b);
    }
}

/// The X, Y and Z counts of readings are kept by reading and by channel.
pub proof fn counts_keep_reading_and_channel(
    raws: Vec<RawMeasurement>,
    res: Vec<Vec<u32>>,
    k: int,
    ch: int,
)
    requires
        call_ensures(counts_of, (&raws,), res),
        0 <= k < raws@.len(),
        0 <= ch < 3,
    ensures
        res@.len() == raws@.len(),
        res@[k]@.len() == 3,
        res@[k]@[ch] == raws@[k].0@[ch],
{
}

} // verus!
