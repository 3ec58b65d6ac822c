//! Commands of the SpyderX2 and the Spyder 2024.
use vstd::prelude::*;

use crate::driver::measurement::{encode_measure_request, measure_request, Setup};
use crate::driver::spyder::transport::Command;

verus! {

/// Command opcodes.
#[derive(Clone, Copy, Debug, PartialEq, Eq, Structural)]
pub enum Opcode {
    /// Device information; 37 bytes come back.
    GetInfo,
    /// Calibration of an index; 108 bytes come back, checksummed.
    GetCalibration,
    /// Measurement setup of a gain selector; 22 bytes come back, checksummed.
    GetSetup,
    /// An emissive measurement; 12 bytes come back.
    Measure,
    /// A measurement by display type, on firmware that has it.
    HighLevelMeasure,
    /// An ambient measurement; 6 bytes come back.
    AmbientMeasure,
}

impl Opcode {
    /// The opcode's byte.
    pub open spec fn byte(self) -> u8 {
        match self {
            Opcode::GetInfo => 0xC2,
            Opcode::GetCalibration => 0xF6,
            Opcode::GetSetup => 0xF7,
            Opcode::Measure => 0xF2,
            Opcode::HighLevelMeasure => 0xFA,
            Opcode::AmbientMeasure => 0xD4,
        }
    }

    /// The opcode's byte.
    pub fn code(self) -> (res: u8)
        ensures
            res == self.byte(),
    {
        match self {
            Opcode::GetInfo => 0xC2,
            Opcode::GetCalibration => 0xF6,
            Opcode::GetSetup => 0xF7,
            Opcode::Measure => 0xF2,
            Opcode::HighLevelMeasure => 0xFA,
            Opcode::AmbientMeasure => 0xD4,
        }
    }
}

/// A command with these parts.
pub open spec fn is_command(
    c: Command,
    opcode: u8,
    payload: Seq<u8>,
    reply_size: int,
    checksummed: bool,
    timeout_ms: int,
) -> bool {
    &&& c.opcode == opcode
    &&& c.payload@ == payload
    &&& c.reply_size == reply_size
    &&& c.checksummed == checksummed
    &&& c.timeout_ms == timeout_ms
}

/// Asks for the device information.
pub fn info_command() -> (res: Command)
    ensures
        is_command(res, Opcode::GetInfo.byte(), seq![], 0x25, false, 5000),
{
    Command {
        opcode: Opcode::GetInfo.code(),
        payload: Vec::new(),
        reply_size: 0x25,
        checksummed: false,
        timeout_ms: 5000,
    }
}

/// Asks for a calibration.
pub fn calibration_command(cal_index: u8) -> (res: Command)
    ensures
        is_command(res, Opcode::GetCalibration.byte(), seq![cal_index], 0x6C, true, 5000),
{
    let mut payload: Vec<u8> = Vec::new();
    payload.push(cal_index);
    assert(payload@ == seq![cal_index]);
    Command {
        opcode: Opcode::GetCalibration.code(),
        payload,
        reply_size: 0x6C,
        checksummed: true,
        timeout_ms: 5000,
    }
}

/// Asks for the setup of a calibration's gain selector.
pub fn setup_command(v1: u8) -> (res: Command)
    ensures
        is_command(res, Opcode::GetSetup.byte(), seq![v1], 0x16, true, 5000),
{
    let mut payload: Vec<u8> = Vec::new();
    payload.push(v1);
    assert(payload@ == seq![v1]);
    Command {
        opcode: Opcode::GetSetup.code(),
        payload,
        reply_size: 0x16,
        checksummed: true,
        timeout_ms: 5000,
    }
}

/// Asks for a measurement. The reply has no checksum.
pub fn measure_command(setup: &Setup) -> (res: Command)
    ensures
        is_command(res, Opcode::Measure.byte(), measure_request(*setup), 0xc, false, 3000),
{
    let bytes = encode_measure_request(setup);
    let mut payload: Vec<u8> = Vec::new();
    let mut i: usize = 0;
    while i < 15
        invariant
            i <= 15,
            payload@ == bytes@.take(i as int),
        decreases 15 - i,
    {
        payload.push(bytes[i]);
        i += 1;
        assert(bytes@.take(i as int) == bytes@.take(i - 1).push(bytes@[i - 1]));
    }
    assert(bytes@.take(15) == bytes@);
    Command {
        opcode: Opcode::Measure.code(),
        payload,
        reply_size: 0xc,
        checksummed: false,
        timeout_ms: 3000,
    }
}

/// The commands as they go over the wire: each has its opcode, carries what it asks
/// for, and expects a reply of its length, which is checksummed for the calibration
/// and the setup.
pub proof fn commands_are_told_apart(
    index: u8,
    v1: u8,
    setup: Setup,
    info: Command,
    calibration: Command,
    setting: Command,
    measure: Command,
)
    requires
        call_ensures(info_command, (), info),
        call_ensures(calibration_command, (index,), calibration),
        call_ensures(setup_command, (v1,), setting),
        call_ensures(measure_command, (&setup,), measure),
    ensures
        info.opcode == 0xC2 && calibration.opcode == 0xF6 && setting.opcode == 0xF7
            && measure.opcode == 0xF2,
        info.reply_size == 37 && calibration.reply_size == 108 && setting.reply_size == 22
            && measure.reply_size == 12,
        !info.checksummed && calibration.checksummed && setting.checksummed && !measure.checksummed,
        info.payload@.len() == 0,
        calibration.payload@.len() == 1 && calibration.payload@[0] == index,
        setting.payload@.len() == 1 && setting.payload@[0] == v1,
        measure.payload@.len() == 15,
        256 * measure.payload@[0] + measure.payload@[1] == setup.s2,
        measure.payload@[2] == setup.s1,
        measure.payload@.subrange(3, 9) == setup.s3@,
        measure.payload@.subrange(9, 15) == setup.s4@,
        info.timeout_ms == 5000 && calibration.timeout_ms == 5000 && setting.timeout_ms == 5000
            && measure.timeout_ms == 3000,
{
    assert(measure.payload@.subrange(3, 9) == setup.s3@);
    assert(measure.payload@.subrange(9, 15) == setup.s4@);
}

} // verus!
