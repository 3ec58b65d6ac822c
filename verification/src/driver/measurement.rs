//! Calibration data, measurement setup and raw counts of the SpyderX2 and the
//! Spyder 2024.
use vstd::prelude::*;

use crate::driver::bytes::{be16, high, le32, low, read_be16, read_le32};
use crate::number::Fraction;

verus! {

/// What can be wrong with a reply.
#[allow(inconsistent_fields)]
#[derive(Clone, Copy, Debug, PartialEq, Eq, Structural)]
pub enum ParseError {
    BadLength { expected: usize, got: usize },
    CalIndexMismatch { expected: u8, got: u8 },
    SetupV1Mismatch { expected: u8, got: u8 },
}

/// Per-unit calibration. The numbers of the matrix, the gains and the offsets
/// are single-precision patterns, as the device stores them.
#[derive(Clone, Copy, Debug)]
pub struct Calibration {
    /// Echoed calibration index.
    pub index: u8,
    /// Gain selector, fed to the setup command.
    pub v1: u8,
    /// Integration time in milliseconds, the device's own ceiling.
    pub v2: u16,
    /// Channel-index bytes.
    pub v4: [u8; 6],
    /// Row `i`, column `j` takes channel `j` into XYZ component `i`.
    pub matrix: [[u32; 6]; 3],
    /// Gain per XYZ component, applied after the matrix.
    pub gain: [u32; 3],
    /// Offset per XYZ component, added last.
    pub offset: [u32; 3],
    /// A byte of unknown use.
    pub v3: u8,
}

/// Measurement setup.
#[derive(Clone, Copy, Debug)]
pub struct Setup {
    /// Echoed gain selector.
    pub s1: u8,
    /// Integration time in milliseconds.
    pub s2: u16,
    /// Channel-index bytes.
    pub s3: [u8; 6],
    /// Per-channel values, passed on with a measurement.
    pub s4: [u8; 6],
    /// Per-channel black level, subtracted from raw counts.
    pub s5: [u8; 6],
}

/// Raw counts of the six channels.
#[derive(Clone, Copy, Debug)]
pub struct RawMeasurement(pub [u16; 6]);

/// What a calibration reply says, if it is one for `expected`.
pub open spec fn calibration_says(p: Seq<u8>, c: Calibration) -> bool {
    &&& c.index == p[0]
    &&& c.v1 == p[1]
    &&& c.v2 == be16(p[2], p[3])
    &&& c.v4@ == p.subrange(4, 10)
    &&& forall|i: int, j: int|
        0 <= i < 3 && 0 <= j < 6 ==> #[trigger] c.matrix@[i]@[j] == le32(p, 10 + (j * 3 + i) * 4)
    &&& forall|j: int| 0 <= j < 3 ==> #[trigger] c.gain@[j] == le32(p, 82 + j * 8)
    &&& forall|j: int| 0 <= j < 3 ==> #[trigger] c.offset@[j] == le32(p, 86 + j * 8)
    &&& c.v3 == p[106]
}

/// Reads a calibration reply of 108 bytes.
pub fn parse_calibration(payload: &[u8], expected_index: u8) -> (res: Result<Calibration, ParseError>)
    ensures
        match res {
            Ok(c) => payload@.len() == 0x6C && payload@[0] == expected_index && calibration_says(
                payload@,
                c,
            ),
            Err(e) => if payload@.len() != 0x6C {
                e == (ParseError::BadLength { expected: 0x6C, got: payload@.len() as usize })
            } else {
                payload@[0] != expected_index && e == (ParseError::CalIndexMismatch {
                    expected: expected_index,
                    got: payload@[0],
                })
            },
        },
{
    if payload.len() != 0x6C {
        return Err(ParseError::BadLength { expected: 0x6C, got: payload.len() });
    }
    if payload[0] != expected_index {
        return Err(ParseError::CalIndexMismatch { expected: expected_index, got: payload[0] });
    }
    let p = payload;
    let v4: [u8; 6] = [p[4], p[5], p[6], p[7], p[8], p[9]];
    let row0: [u32; 6] = [
        read_le32(p, 10),
        read_le32(p, 22),
        read_le32(p, 34),
        read_le32(p, 46),
        read_le32(p, 58),
        read_le32(p, 70),
    ];
    let row1: [u32; 6] = [
        read_le32(p, 14),
        read_le32(p, 26),
        read_le32(p, 38),
        read_le32(p, 50),
        read_le32(p, 62),
        read_le32(p, 74),
    ];
    let row2: [u32; 6] = [
        read_le32(p, 18),
        read_le32(p, 30),
        read_le32(p, 42),
        read_le32(p, 54),
        read_le32(p, 66),
        read_le32(p, 78),
    ];
    let c = Calibration {
        index: p[0],
        v1: p[1],
        v2: read_be16(p[2], p[3]),
        v4,
        matrix: [row0, row1, row2],
        gain: [read_le32(p, 82), read_le32(p, 90), read_le32(p, 98)],
        offset: [read_le32(p, 86), read_le32(p, 94), read_le32(p, 102)],
        v3: p[106],
    };
    assert(c.v4@ == p@.subrange(4, 10));
    assert forall|i: int, j: int| 0 <= i < 3 && 0 <= j < 6 implies #[trigger] c.matrix@[i]@[j]
        == le32(p@, 10 + (j * 3 + i) * 4) by {
        assert(c.matrix@[0] == row0 && c.matrix@[1] == row1 && c.matrix@[2] == row2);
    }
    Ok(c)
}

/// What a setup reply says.
pub open spec fn setup_says(p: Seq<u8>, s: Setup) -> bool {
    &&& s.s1 == p[2]
    &&& s.s2 == be16(p[0], p[1])
    &&& s.s3@ == p.subrange(3, 9)
    &&& s.s4@ == p.subrange(9, 15)
    &&& s.s5@ == p.subrange(15, 21)
}

/// Reads a setup reply of 22 bytes.
pub fn parse_setup(payload: &[u8], expected_v1: u8) -> (res: Result<Setup, ParseError>)
    ensures
        match res {
            Ok(s) => payload@.len() == 0x16 && payload@[2] == expected_v1 && setup_says(payload@, s),
            Err(e) => if payload@.len() != 0x16 {
                e == (ParseError::BadLength { expected: 0x16, got: payload@.len() as usize })
            } else {
                payload@[2] != expected_v1 && e == (ParseError::SetupV1Mismatch {
                    expected: expected_v1,
                    got: payload@[2],
                })
            },
        },
{
    if payload.len() != 0x16 {
        return Err(ParseError::BadLength { expected: 0x16, got: payload.len() });
    }
    let p = payload;
    if p[2] != expected_v1 {
        return Err(ParseError::SetupV1Mismatch { expected: expected_v1, got: p[2] });
    }
    let s = Setup {
        s1: p[2],
        s2: read_be16(p[0], p[1]),
        s3: [p[3], p[4], p[5], p[6], p[7], p[8]],
        s4: [p[9], p[10], p[11], p[12], p[13], p[14]],
        s5: [p[15], p[16], p[17], p[18], p[19], p[20]],
    };
    assert(s.s3@ == p@.subrange(3, 9));
    assert(s.s4@ == p@.subrange(9, 15));
    assert(s.s5@ == p@.subrange(15, 21));
    Ok(s)
}

/// Reads a measurement reply of 12 bytes.
pub fn parse_raw_measurement(payload: &[u8]) -> (res: Result<RawMeasurement, ParseError>)
    ensures
        match res {
            Ok(r) => payload@.len() == 0xc && forall|i: int|
                0 <= i < 6 ==> #[trigger] r.0@[i] == be16(payload@[2 * i], payload@[2 * i + 1]),
            Err(e) => payload@.len() != 0xc && e == (ParseError::BadLength {
                expected: 0xc,
                got: payload@.len() as usize,
            }),
        },
{
    if payload.len() != 0xc {
        return Err(ParseError::BadLength { expected: 0xc, got: payload.len() });
    }
    let p = payload;
    Ok(
        RawMeasurement(
            [
                read_be16(p[0], p[1]),
                read_be16(p[2], p[3]),
                read_be16(p[4], p[5]),
                read_be16(p[6], p[7]),
                read_be16(p[8], p[9]),
                read_be16(p[10], p[11]),
            ],
        ),
    )
}

/// The payload of a measure command.
pub open spec fn measure_request(s: Setup) -> Seq<u8> {
    seq![(s.s2 / 256) as u8, (s.s2 % 256) as u8, s.s1] + s.s3@ + s.s4@
}

/// Encodes the payload of a measure command.
pub fn encode_measure_request(setup: &Setup) -> (res: [u8; 15])
    ensures
        res@ == measure_request(*setup),
{
    let a = &setup.s3;
    let b = &setup.s4;
    let res: [u8; 15] = [
        high(setup.s2),
        low(setup.s2),
        setup.s1,
        a[0],
        a[1],
        a[2],
        a[3],
        a[4],
        a[5],
        b[0],
        b[1],
        b[2],
        b[3],
        b[4],
        b[5],
    ];
    assert(res@ == measure_request(*setup));
    res
}

/// What a measure command sends is the setup reply without its black levels.
pub proof fn measure_request_echoes_setup(p: Seq<u8>, s: Setup)
    requires
        p.len() == 0x16,
        setup_says(p, s),
    ensures
        measure_request(s) == p.take(15),
{
    assert(measure_request(s) == p.take(15));
}

/// A count less its black level, at least zero.
pub open spec fn above_black(raw: u16, black: u8) -> nat {
    if raw >= black {
        (raw - black) as nat
    } else {
        0
    }
}

/// The counts less their black levels, at least zero: what the calibration
/// matrix is applied to.
pub fn corrected_counts(raw: &RawMeasurement, setup: &Setup) -> (res: [u16; 6])
    ensures
        forall|i: int| 0 <= i < 6 ==> #[trigger] res@[i] == above_black(raw.0@[i], setup.s5@[i]),
{
    let r = &raw.0;
    let b = &setup.s5;
    [
        less_black(r[0], b[0]),
        less_black(r[1], b[1]),
        less_black(r[2], b[2]),
        less_black(r[3], b[3]),
        less_black(r[4], b[4]),
        less_black(r[5], b[5]),
    ]
}

fn less_black(raw: u16, black: u8) -> (res: u16)
    ensures
        res == above_black(raw, black),
{
    if raw >= black as u16 {
        raw - black as u16
    } else {
        0
    }
}

// ---------------------------------------------------------------------------
// Integration time
// ---------------------------------------------------------------------------

/// The shortest integration time, in milliseconds.
pub const MIN_INTEGRATION_MS: u16 = 10;

/// An integration time that cannot be used.
#[derive(Clone, Copy, Debug, PartialEq, Eq, Structural)]
pub enum IntegrationError {
    OutOfRange { got: u16, min: u16, max: u16 },
}

impl Calibration {
    /// The integration time of the calibration, and the device's ceiling.
    pub fn integration_ms(&self) -> (res: u16)
        ensures
            res == self.v2,
    {
        self.v2
    }
}

/// Sets up a measurement at another integration time: the setup to measure
/// with, and the factor by which the calibration matrix is to be multiplied so
/// that the result keeps its absolute units. The two belong together.
pub fn override_integration(setup: &Setup, cal: &Calibration, target_ms: u16) -> (res: Result<
    (Setup, Fraction),
    IntegrationError,
>)
    ensures
        match res {
            Ok((s, scale)) => {
                &&& MIN_INTEGRATION_MS <= target_ms <= cal.v2
                &&& s == (Setup { s2: target_ms, ..*setup })
                &&& scale == (Fraction { num: cal.v2 as u64, den: target_ms as u64 })
            },
            Err(e) => {
                &&& !(MIN_INTEGRATION_MS <= target_ms <= cal.v2)
                &&& e == (IntegrationError::OutOfRange {
                    got: target_ms,
                    min: MIN_INTEGRATION_MS,
                    max: cal.v2,
                })
            },
        },
{
    let max_ms: u16 = cal.v2;
    if target_ms < MIN_INTEGRATION_MS || target_ms > max_ms {
        return Err(
            IntegrationError::OutOfRange { got: target_ms, min: MIN_INTEGRATION_MS, max: max_ms },
        );
    }
    let s = Setup { s1: setup.s1, s2: target_ms, s3: setup.s3, s4: setup.s4, s5: setup.s5 };
    Ok((s, Fraction { num: cal.v2 as u64, den: target_ms as u64 }))
}

/// A light whose counts grow in step with the integration time reads the same
/// at any integration time: the scaled counts of a short measurement are those
/// of a full one.
pub proof fn override_preserves_absolute_counts(
    v2: u16,
    target_ms: u16,
    scale: Fraction,
    full: int,
    short: int,
)
    requires
        target_ms > 0,
        scale.num == v2,
        scale.den == target_ms,
        short * v2 == full * target_ms,
    ensures
        short * scale.num == full * scale.den,
{
}

/// At the calibration's own integration time nothing is changed.
pub proof fn override_at_default_is_identity(setup: Setup, v2: u16, s: Setup, scale: Fraction)
    requires
        setup.s2 == v2,
        s == (Setup { s2: v2, ..setup }),
        scale == (Fraction { num: v2 as u64, den: v2 as u64 }),
    ensures
        s == setup,
        scale.num == scale.den,
{
}

// ---------------------------------------------------------------------------
// What the bytes mean
// ---------------------------------------------------------------------------

/// The four bytes at `k` make up a number, the least significant one first.
pub open spec fn word_at(p: Seq<u8>, k: int, n: u32) -> bool {
    n == p[k] + 256 * p[k + 1] + 65536 * p[k + 2] + 16777216 * p[k + 3]
}

/// A calibration is read from its reply byte by byte: the matrix by channel, three
/// components each, then gain and offset of each component in turn. A reply of
/// another length or for another calibration is refused.
pub proof fn calibrations_are_read_from_their_bytes(
    payload: &[u8],
    index: u8,
    res: Result<Calibration, ParseError>,
    i: int,
    j: int,
)
    requires
        call_ensures(parse_calibration, (payload, index), res),
        0 <= i < 3,
        0 <= j < 6,
    ensures
        res is Ok <==> payload@.len() == 108 && payload@[0] == index,
        res matches Ok(c) ==> {
            let p = payload@;
            &&& c.index == index
            &&& c.v1 == p[1]
            &&& c.v2 == 256 * p[2] + p[3]
            &&& c.v4@[j] == p[4 + j]
            &&& word_at(p, 10 + 12 * j + 4 * i, c.matrix@[i]@[j])
            &&& word_at(p, 82 + 8 * i, c.gain@[i])
            &&& word_at(p, 86 + 8 * i, c.offset@[i])
            &&& c.v3 == p[106]
        },
        res matches Err(ParseError::BadLength { expected, got }) ==> expected == 108 && got
            == payload@.len() && got != 108,
        res matches Err(ParseError::CalIndexMismatch { expected, got }) ==> expected == index && got
            == payload@[0] && got != index,
        !(res matches Err(ParseError::SetupV1Mismatch { .. })),
{
    assert(payload.len() == payload@.len());
}

/// A setup is read from its reply byte by byte: the integration time, the gain
/// selector, and six bytes each of channel numbers, of values and of black levels.
pub proof fn setups_are_read_from_their_bytes(
    payload: &[u8],
    v1: u8,
    res: Result<Setup, ParseError>,
    j: int,
)
    requires
        call_ensures(parse_setup, (payload, v1), res),
        0 <= j < 6,
    ensures
        res is Ok <==> payload@.len() == 22 && payload@[2] == v1,
        res matches Ok(s) ==> {
            let p = payload@;
            &&& s.s2 == 256 * p[0] + p[1]
            &&& s.s1 == v1
            &&& s.s3@[j] == p[3 + j]
            &&& s.s4@[j] == p[9 + j]
            &&& s.s5@[j] == p[15 + j]
        },
        res matches Err(ParseError::BadLength { expected, got }) ==> expected == 22 && got
            == payload@.len() && got != 22,
        res matches Err(ParseError::SetupV1Mismatch { expected, got }) ==> expected == v1 && got
            == payload@[2] && got != v1,
        !(res matches Err(ParseError::CalIndexMismatch { .. })),
{
    assert(payload.len() == payload@.len());
}

/// The counts of a measurement are the pairs of bytes of its reply, in order, the
/// more significant byte first.
pub proof fn counts_are_read_from_their_bytes(
    payload: &[u8],
    res: Result<RawMeasurement, ParseError>,
    i: int,
)
    requires
        call_ensures(parse_raw_measurement, (payload,), res),
        0 <= i < 6,
    ensures
        res is Ok <==> payload@.len() == 12,
        res matches Ok(r) ==> r.0@[i] == 256 * payload@[2 * i] + payload@[2 * i + 1],
{
}

/// A measure command passes the setup on: its integration time and gain selector,
/// then its channel numbers and its values.
pub proof fn measure_requests_pass_the_setup_on(s: Setup, b: [u8; 15], j: int)
    requires
        call_ensures(encode_measure_request, (&s,), b),
        0 <= j < 6,
    ensures
        256 * b@[0] + b@[1] == s.s2,
        b@[2] == s.s1,
        b@[3 + j] == s.s3@[j],
        b@[9 + j] == s.s4@[j],
{
}

/// A corrected count and the black level of its channel add up to the raw count,
/// unless that is below the black level, which reads as nothing.
pub proof fn counts_are_taken_above_black(
    raw: RawMeasurement,
    setup: Setup,
    res: [u16; 6],
    i: int,
)
    requires
        call_ensures(corrected_counts, (&raw, &setup), res),
        0 <= i < 6,
    ensures
        raw.0@[i] >= setup.s5@[i] ==> res@[i] + setup.s5@[i] == raw.0@[i],
        raw.0@[i] < setup.s5@[i] ==> res@[i] == 0,
{
}

/// A measurement at another integration time changes nothing but the time, and its
/// factor is the ratio of the calibration's time to it. Times from ten milliseconds
/// to the calibration's own can be asked for.
pub proof fn overrides_change_the_time_alone(
    setup: Setup,
    cal: Calibration,
    ms: u16,
    res: Result<(Setup, Fraction), IntegrationError>,
)
    requires
        call_ensures(override_integration, (&setup, &cal, ms), res),
    ensures
        res is Ok <==> 10 <= ms <= cal.v2,
        res matches Ok((s, scale)) ==> {
            &&& s.s2 == ms
            &&& s.s1 == setup.s1 && s.s3 == setup.s3 && s.s4 == setup.s4 && s.s5 == setup.s5
            &&& scale.den > 0
            &&& scale.num * ms == cal.v2 * scale.den
        },
        res matches Err(IntegrationError::OutOfRange { got, min, max }) ==> got == ms && min == 10
            && max == cal.v2,
{
    assert(cal.v2 * ms == ms * cal.v2) by (nonlinear_arith);
}

} // verus!
