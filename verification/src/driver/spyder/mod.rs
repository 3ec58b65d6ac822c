//! The SpyderX2 and the Spyder 2024: what their information reply says, which
//! calibrations they have, and how an adaptive measurement goes.
use vstd::prelude::*;
use vstd::slice::slice_subrange;
use vstd::std_specs::bits::{axiom_u16_leading_zeros, u16_leading_zeros};

use crate::driver::bytes::{
    be16, copy_of, field_text, is_ascii_digit, leading_number, lemma_small_number,
    no_digit_no_number, parse_leading_number, read_be16, read_field,
};
use crate::driver::colorimeter::{AdaptiveTier, CalibrationDesc, CalibrationId, Error};
use crate::driver::measurement::{
    override_integration, Calibration, IntegrationError, RawMeasurement, Setup, MIN_INTEGRATION_MS,
};
use crate::driver::spyder::transport::SPYDER_2024;
use crate::number::Fraction;
use crate::text::{decimal, decimal_text, joined};

pub mod protocol;
pub mod spyderx;
pub mod transport;

verus! {

/// The number at the start of some bytes; none if there is no digit or if it
/// does not fit.
pub fn parse_ascii_int(bytes: &[u8]) -> (res: Option<u32>)
    ensures
        res == leading_number(bytes@),
{
    assert(bytes@.subrange(0, bytes@.len() as int) == bytes@);
    parse_leading_number(bytes, 0, bytes.len())
}

/// The name of a model.
pub fn model_name(pid: u16) -> (res: &'static str)
    ensures
        res@ == if pid == SPYDER_2024 {
            "Spyder 2024"@
        } else {
            "SpyderX2"@
        },
{
    if pid == SPYDER_2024 {
        "Spyder 2024"
    } else {
        "SpyderX2"
    }
}

/// Capabilities of the Spyder 2024's firmware.
#[derive(Clone, Copy, Debug, PartialEq, Eq)]
pub struct SpyderCaps {
    /// The high-level commands are available.
    pub high_level_commands: bool,
    /// Greatest display-type number that the high-level commands accept.
    pub max_display_type: Option<u8>,
    /// Bit mask of the valid display-type numbers.
    pub display_type_mask: Option<u16>,
}

/// What the information reply of a device says.
#[derive(Debug)]
pub struct SpyderInfo {
    pub firmware: (u32, u32),
    pub serial: String,
    pub caps: SpyderCaps,
}

/// The greatest display-type number, of which a device reports the successor.
pub open spec fn greatest_type(successor: u8) -> Option<u8> {
    if successor > 0 {
        Some((successor - 1) as u8)
    } else {
        None
    }
}

/// The capabilities in an information reply: those of a Spyder 2024 whose reply
/// carries the signature of the high-level commands, and none otherwise.
pub open spec fn caps_in(reply: Seq<u8>, pid: u16) -> SpyderCaps {
    if pid == SPYDER_2024 && reply[17] == 0x09 && reply[18] == 0x08 && reply[19] == 0x01 {
        SpyderCaps {
            high_level_commands: true,
            max_display_type: greatest_type(reply[35]),
            display_type_mask: Some(be16(reply[20], reply[21])),
        }
    } else {
        SpyderCaps {
            high_level_commands: false,
            max_display_type: None,
            display_type_mask: None,
        }
    }
}

/// Reads an information reply.
pub fn read_info(reply: &[u8], pid: u16) -> (res: Result<SpyderInfo, Error>)
    requires
        reply@.len() == 0x25,
    ensures
        match res {
            Ok(info) => {
                &&& leading_number(reply@.subrange(0, 1)) == Some(info.firmware.0)
                &&& leading_number(reply@.subrange(2, 4)) == Some(info.firmware.1)
                &&& info.serial@ == field_text(reply@.subrange(4, 12))
                &&& info.caps == caps_in(reply@, pid)
            },
            Err(e) => {
                &&& leading_number(reply@.subrange(0, 1)) is None || leading_number(
                    reply@.subrange(2, 4),
                ) is None
                &&& e matches Error::BadVersionString(v) && v@ == reply@
            },
        },
{
    let major: u32 = match parse_leading_number(reply, 0, 1) {
        Some(n) => n,
        None => return Err(Error::BadVersionString(whole(reply))),
    };
    let minor: u32 = match parse_leading_number(reply, 2, 4) {
        Some(n) => n,
        None => return Err(Error::BadVersionString(whole(reply))),
    };
    let serial = read_field(slice_subrange(reply, 4, 12));
    let caps = if pid == SPYDER_2024 && reply[17] == 0x09 && reply[18] == 0x08 && reply[19] == 0x01 {
        SpyderCaps {
            high_level_commands: true,
            max_display_type: if reply[35] > 0 {
                Some(reply[35] - 1)
            } else {
                None
            },
            display_type_mask: Some(read_be16(reply[20], reply[21])),
        }
    } else {
        SpyderCaps { high_level_commands: false, max_display_type: None, display_type_mask: None }
    };
    Ok(SpyderInfo { firmware: (major, minor), serial, caps })
}

fn whole(s: &[u8]) -> (res: Vec<u8>)
    ensures
        res@ == s@,
{
    assert(s@.subrange(0, s@.len() as int) == s@);
    copy_of(s, 0, s.len())
}

// ---------------------------------------------------------------------------
// Calibrations
// ---------------------------------------------------------------------------

/// How many display types have a name.
pub open spec fn named_types(pid: u16) -> nat {
    if pid == SPYDER_2024 {
        7
    } else {
        5
    }
}

/// The name of a display type: the vendor's, where it has one.
pub open spec fn preset_name(pid: u16, i: nat) -> Seq<char> {
    if i >= named_types(pid) {
        "Display type "@ + decimal_text(i)
    } else if i == 0 {
        "General"@
    } else if i == 1 {
        "Standard LED"@
    } else if i == 2 {
        "Wide Gamut LED"@
    } else if i == 3 {
        "GB LED"@
    } else if i == 4 {
        "High Brightness"@
    } else if i == 5 {
        "OLED"@
    } else {
        "Mini-LED"@
    }
}

/// A mask of zero says nothing, since there is always a calibration 0.
pub open spec fn effective_mask(mask: Option<u16>) -> Option<u16> {
    if mask == Some(0u16) {
        None
    } else {
        mask
    }
}

/// Display type `i` exists, as far as the firmware says.
pub open spec fn type_is_valid(mask: Option<u16>, i: nat) -> bool {
    match effective_mask(mask) {
        Some(m) => m & (1u16 << (i as u16)) != 0,
        None => true,
    }
}

/// How many display types there are to look at: those with a name, and those
/// that the mask has bits for.
pub open spec fn type_count(pid: u16, mask: Option<u16>) -> nat {
    match effective_mask(mask) {
        Some(m) if 16 - u16_leading_zeros(m) > named_types(pid) => (16 - u16_leading_zeros(
            m,
        )) as nat,
        _ => named_types(pid),
    }
}

/// The valid ones among the first `n` display types.
pub open spec fn valid_types(mask: Option<u16>, n: nat) -> Seq<nat>
    decreases n,
{
    if n == 0 {
        seq![]
    } else if type_is_valid(mask, (n - 1) as nat) {
        valid_types(mask, (n - 1) as nat).push((n - 1) as nat)
    } else {
        valid_types(mask, (n - 1) as nat)
    }
}

/// An entry for display type `i`.
pub open spec fn describes_type(d: CalibrationDesc, pid: u16, i: nat) -> bool {
    d.id.0 == i && d.name@ == preset_name(pid, i)
}

fn name_of_type(pid: u16, i: u8) -> (res: String)
    ensures
        res@ == preset_name(pid, i as nat),
{
    let named: u8 = if pid == SPYDER_2024 {
        7
    } else {
        5
    };
    if i >= named {
        joined("Display type ", decimal(i as u64).as_str())
    } else if i == 0 {
        "General".to_owned()
    } else if i == 1 {
        "Standard LED".to_owned()
    } else if i == 2 {
        "Wide Gamut LED".to_owned()
    } else if i == 3 {
        "GB LED".to_owned()
    } else if i == 4 {
        "High Brightness".to_owned()
    } else if i == 5 {
        "OLED".to_owned()
    } else {
        "Mini-LED".to_owned()
    }
}

/// The calibrations of a device, in index order.
pub fn calibrations(pid: u16, display_type_mask: Option<u16>) -> (res: Vec<CalibrationDesc>)
    ensures
        ({
            let types = valid_types(display_type_mask, type_count(pid, display_type_mask));
            &&& res@.len() == types.len()
            &&& forall|k: int|
                0 <= k < res@.len() ==> describes_type(#[trigger] res@[k], pid, types[k])
        }),
{
    let mask: Option<u16> = match display_type_mask {
        Some(m) if m != 0 => Some(m),
        _ => None,
    };
    assert(mask == effective_mask(display_type_mask));
    let named: u8 = if pid == SPYDER_2024 {
        7
    } else {
        5
    };
    let count: u8 = match mask {
        Some(m) => {
            proof {
                axiom_u16_leading_zeros(m);
            }
            let bits: u32 = 16 - m.leading_zeros();
            if bits > named as u32 {
                bits as u8
            } else {
                named
            }
        },
        None => named,
    };
    assert(count == type_count(pid, display_type_mask));
    let mut out: Vec<CalibrationDesc> = Vec::new();
    let mut i: u8 = 0;
    while i < count
        invariant
            i <= count <= 16,
            mask == effective_mask(display_type_mask),
            out@.len() == valid_types(display_type_mask, i as nat).len(),
            forall|k: int|
                0 <= k < out@.len() ==> describes_type(
                    #[trigger] out@[k],
                    pid,
                    valid_types(display_type_mask, i as nat)[k],
                ),
        decreases count - i,
    {
        let valid: bool = match mask {
            Some(m) => m & (1u16 << i as u16) != 0,
            None => true,
        };
        assert(valid == type_is_valid(display_type_mask, i as nat));
        if valid {
            out.push(CalibrationDesc { id: CalibrationId(i), name: name_of_type(pid, i) });
        }
        i += 1;
    }
    out
}

proof fn lemma_valid_types_contains(mask: Option<u16>, n: nat, i: nat)
    requires
        i < n,
        type_is_valid(mask, i),
    ensures
        valid_types(mask, n).contains(i),
    decreases n,
{
    if i < n - 1 {
        lemma_valid_types_contains(mask, (n - 1) as nat, i);
        let front = valid_types(mask, (n - 1) as nat);
        let k = choose|k: int| 0 <= k < front.len() && front[k] == i;
        assert(valid_types(mask, n)[k] == i);
    } else {
        let s = valid_types(mask, n);
        assert(s[s.len() - 1] == i);
    }
}

/// Every display type that the firmware's mask names is listed.
pub proof fn masked_types_are_listed(pid: u16, m: u16, i: nat)
    requires
        m != 0,
        i < 16,
        m & (1u16 << (i as u16)) != 0,
    ensures
        valid_types(Some(m), type_count(pid, Some(m))).contains(i),
{
    axiom_u16_leading_zeros(m);
    let lz = u16_leading_zeros(m);
    let k = i as u16;
    if i >= 16 - lz {
        if lz < 16 {
            assert(m & (1u16 << k) == 0) by {
                let s = (16 - lz) as u16;
                assert(m >> s == 0);
                assert(m >> s == 0u16 && s <= k && k < 16 ==> m & (1u16 << k) == 0) by (bit_vector);
            }
        }
    }
    lemma_valid_types_contains(Some(m), type_count(pid, Some(m)), i);
}

// ---------------------------------------------------------------------------
// Measuring
// ---------------------------------------------------------------------------

/// A burst of an adaptive measurement.
#[derive(Clone, Copy, Debug)]
pub enum Burst {
    /// At a shorter exposure: the setup to measure with, and the factor for the
    /// calibration matrix.
    Fast { setup: Setup, scale: Fraction },
    /// At the default exposure, for this tier.
    Full { tier: AdaptiveTier },
}

/// The first burst of an adaptive measurement: fast where an exposure shorter
/// than the default was asked for and is in range, and a single full one
/// otherwise.
pub fn first_burst(setup: &Setup, cal: &Calibration, fast_ms: Option<u16>) -> (res: Burst)
    ensures
        res == match fast_ms {
            Some(ms) if MIN_INTEGRATION_MS <= ms < cal.v2 => Burst::Fast {
                setup: (Setup { s2: ms, ..*setup }),
                scale: (Fraction { num: cal.v2 as u64, den: ms as u64 }),
            },
            _ => Burst::Full { tier: AdaptiveTier::SingleFull },
        },
{
    if let Some(ms) = fast_ms {
        if ms < cal.integration_ms() {
            if let Ok((s, scale)) = override_integration(setup, cal, ms) {
                return Burst::Fast { setup: s, scale };
            }
        }
    }
    Burst::Full { tier: AdaptiveTier::SingleFull }
}

/// What follows a fast burst: nothing if it can be trusted, a full one if not.
pub fn after_fast(trustworthy: bool) -> (res: Option<Burst>)
    ensures
        res == if trustworthy {
            None
        } else {
            Some(Burst::Full { tier: AdaptiveTier::EscalatedFull })
        },
{
    if trustworthy {
        None
    } else {
        Some(Burst::Full { tier: AdaptiveTier::EscalatedFull })
    }
}

/// The setup and factor of a measurement at an explicit exposure.
pub fn setup_at(setup: &Setup, cal: &Calibration, integration_ms: u16) -> (res: Result<
    (Setup, Fraction),
    Error,
>)
    ensures
        match res {
            Ok((s, scale)) => {
                &&& MIN_INTEGRATION_MS <= integration_ms <= cal.v2
                &&& s == (Setup { s2: integration_ms, ..*setup })
                &&& scale == (Fraction { num: cal.v2 as u64, den: integration_ms as u64 })
            },
            Err(e) => {
                &&& !(MIN_INTEGRATION_MS <= integration_ms <= cal.v2)
                &&& e == (Error::IntegrationOutOfRange {
                    got: integration_ms,
                    min: MIN_INTEGRATION_MS,
                    max: cal.v2,
                })
            },
        },
{
    match override_integration(setup, cal, integration_ms) {
        Ok(pair) => Ok(pair),
        Err(IntegrationError::OutOfRange { got, min, max }) => Err(
            Error::IntegrationOutOfRange { got, min, max },
        ),
    }
}

/// The exposures that can be asked for, least and greatest.
pub fn integration_range(cal: &Calibration) -> (res: (u16, u16))
    ensures
        res == (MIN_INTEGRATION_MS, cal.v2),
{
    (MIN_INTEGRATION_MS, cal.v2)
}

/// The counts of some readings, by reading and channel.
pub fn counts_of(raws: &Vec<RawMeasurement>) -> (res: Vec<Vec<u32>>)
    ensures
        res@.len() == raws@.len(),
        forall|k: int|
            0 <= k < raws@.len() ==> (#[trigger] res@[k])@ == raws@[k].0@.map_values(
                |c: u16| c as u32,
            ),
{
    let mut out: Vec<Vec<u32>> = Vec::new();
    let mut k: usize = 0;
    while k < raws.len()
        invariant
            k <= raws@.len(),
            out@.len() == k,
            forall|j: int|
                0 <= j < k ==> (#[trigger] out@[j])@ == raws@[j].0@.map_values(|c: u16| c as u32),
        decreases raws@.len() - k,
    {
        let r = &raws[k].0;
        let mut row: Vec<u32> = Vec::new();
        row.push(r[0] as u32);
        row.push(r[1] as u32);
        row.push(r[2] as u32);
        row.push(r[3] as u32);
        row.push(r[4] as u32);
        row.push(r[5] as u32);
        assert(row@ == r@.map_values(|c: u16| c as u32));
        out.push(row);
        k += 1;
    }
    out
}

// ---------------------------------------------------------------------------
// What a device says
// ---------------------------------------------------------------------------

/// An information reply gives the firmware's version in ASCII digits, one for the
/// major and up to two for the minor, and is refused without them. The high-level
/// commands are there on a Spyder 2024 whose reply has their signature; the number of
/// display types and the mask of the valid ones are then read from it.
pub proof fn information_is_read_from_its_bytes(
    reply: &[u8],
    pid: u16,
    res: Result<SpyderInfo, Error>,
)
    requires
        reply@.len() == 37,
        call_ensures(read_info, (reply, pid), res),
    ensures
        ({
            let r = reply@;
            let digit = |b: u8| 48 <= b <= 57;
            &&& res is Ok <==> digit(r[0]) && digit(r[2])
            &&& res matches Ok(info) ==> {
                &&& info.firmware.0 == r[0] - 48
                &&& digit(r[3]) ==> info.firmware.1 == 10 * (r[2] - 48) + (r[3] - 48)
                &&& !digit(r[3]) ==> info.firmware.1 == r[2] - 48
                &&& info.serial@ == field_text(r.subrange(4, 12))
                &&& info.caps.high_level_commands <==> pid == 0x0a0b && r[17] == 9 && r[18] == 8
                    && r[19] == 1
                &&& info.caps.high_level_commands ==> {
                    &&& info.caps.display_type_mask == Some((256 * r[20] + r[21]) as u16)
                    &&& r[35] == 0 ==> info.caps.max_display_type is None
                    &&& r[35] > 0 ==> (info.caps.max_display_type matches Some(m) && m + 1 == r[35])
                }
                &&& !info.caps.high_level_commands ==> info.caps.display_type_mask is None
                    && info.caps.max_display_type is None
            }
        }),
{
    let r = reply@;
    let a = r.subrange(0, 1);
    let b = r.subrange(2, 4);
    assert(a[0] == r[0] && b[0] == r[2] && b[1] == r[3]);
    if is_ascii_digit(r[0]) {
        lemma_small_number(a, 1);
    } else {
        no_digit_no_number(a);
    }
    if is_ascii_digit(r[2]) {
        if is_ascii_digit(r[3]) {
            lemma_small_number(b, 2);
        } else {
            lemma_small_number(b, 1);
        }
    } else {
        no_digit_no_number(b);
    }
}

proof fn lemma_valid_types_rise(mask: Option<u16>, n: nat, k: int)
    requires
        0 <= k < valid_types(mask, n).len(),
    ensures
        valid_types(mask, n)[k] < n,
        type_is_valid(mask, valid_types(mask, n)[k]),
        k + 1 < valid_types(mask, n).len() ==> valid_types(mask, n)[k] < valid_types(mask, n)[k + 1],
    decreases n,
{
    let front = valid_types(mask, (n - 1) as nat);
    if k < front.len() {
        lemma_valid_types_rise(mask, (n - 1) as nat, k);
    }
}

/// The calibrations are listed by rising number, once each: those that the mask
/// names, or without a mask all that have a name. A name is the vendor's for the
/// first five, and for two more on a Spyder 2024.
pub proof fn calibrations_are_listed_in_order(
    pid: u16,
    mask: Option<u16>,
    res: Vec<CalibrationDesc>,
    k: int,
)
    requires
        call_ensures(calibrations, (pid, mask), res),
        0 <= k < res@.len(),
    ensures
        ({
            let d = res@[k];
            let i = d.id.0;
            let named = if pid == 0x0a0b {
                7int
            } else {
                5
            };
            &&& k + 1 < res@.len() ==> i < res@[k + 1].id.0
            &&& mask is Some && mask->0 != 0 ==> mask->0 & (1u16 << (i as u16)) != 0
            &&& mask is None || mask == Some(0u16) ==> i == k && res@.len() == named
            &&& i == 0 ==> d.name@ == "General"@
            &&& i == 1 ==> d.name@ == "Standard LED"@
            &&& i == 2 ==> d.name@ == "Wide Gamut LED"@
            &&& i == 3 ==> d.name@ == "GB LED"@
            &&& i == 4 ==> d.name@ == "High Brightness"@
            &&& i == 5 && named == 7 ==> d.name@ == "OLED"@
            &&& i == 6 && named == 7 ==> d.name@ == "Mini-LED"@
            &&& i >= named ==> d.name@ == "Display type "@ + decimal_text(i as nat)
        }),
{
    let n = type_count(pid, mask);
    lemma_valid_types_rise(mask, n, k);
    assert(describes_type(res@[k], pid, valid_types(mask, n)[k]));
    if k + 1 < res@.len() {
        assert(describes_type(res@[k + 1], pid, valid_types(mask, n)[k + 1]));
    }
    if mask is None || mask == Some(0u16) {
        lemma_all_types(mask, n);
    }
}

proof fn lemma_all_types(mask: Option<u16>, n: nat)
    requires
        effective_mask(mask) is None,
    ensures
        valid_types(mask, n) == Seq::new(n, |i: int| i as nat),
    decreases n,
{
    if n > 0 {
        lemma_all_types(mask, (n - 1) as nat);
        assert(Seq::new(n, |i: int| i as nat) == Seq::new((n - 1) as nat, |i: int| i as nat).push(
            (n - 1) as nat,
        ));
    } else {
        assert(valid_types(mask, 0) == Seq::new(0, |i: int| i as nat));
    }
}

/// An adaptive measurement starts fast exactly where an exposure was asked for that
/// is shorter than the calibration's and long enough for the device; the fast burst
/// measures at that exposure and scales by the ratio of the two. It escalates exactly
/// where the fast burst cannot be trusted.
pub proof fn adaptive_measurements_escalate(
    setup: Setup,
    cal: Calibration,
    fast_ms: Option<u16>,
    trustworthy: bool,
    first: Burst,
    then: Option<Burst>,
)
    requires
        call_ensures(first_burst, (&setup, &cal, fast_ms), first),
        call_ensures(after_fast, (trustworthy,), then),
    ensures
        first is Fast <==> (fast_ms matches Some(ms) && 10 <= ms && ms < cal.v2),
        first matches Burst::Fast { setup: s, scale } ==> {
            &&& s.s2 == fast_ms->0
            &&& s.s1 == setup.s1 && s.s3 == setup.s3 && s.s4 == setup.s4 && s.s5 == setup.s5
            &&& scale.num * s.s2 == cal.v2 * scale.den && scale.den > 0
        },
        first matches Burst::Full { tier } ==> tier == AdaptiveTier::SingleFull,
        then is None <==> trustworthy,
        then matches Some(b) ==> (b matches Burst::Full { tier } && tier
            == AdaptiveTier::EscalatedFull),
{
    if let Burst::Fast { setup: s, scale } = first {
        assert(cal.v2 * s.s2 == s.s2 * cal.v2) by (nonlinear_arith);
    }
}

/// The counts of readings are kept by reading and by channel.
pub proof fn counts_keep_reading_and_channel(
    raws: Vec<RawMeasurement>,
    res: Vec<Vec<u32>>,
    k: int,
    ch: int,
)
    requires
        call_ensures(counts_of, (&raws,), res),
        0 <= k < raws@.len(),
        0 <= ch < 6,
    ensures
        res@.len() == raws@.len(),
        res@[k]@.len() == 6,
        res@[k]@[ch] == raws@[k].0@[ch],
{
}

/// A measurement starts fast exactly where the exposure that was asked for is in the
/// device's range and below its end, and the range ends at the exposure of the
/// calibration.
pub proof fn fast_exposures_are_in_range(
    setup: Setup,
    cal: Calibration,
    ms: u16,
    range: (u16, u16),
    first: Burst,
)
    requires
        call_ensures(integration_range, (&cal,), range),
        call_ensures(first_burst, (&setup, &cal, Some(ms)), first),
    ensures
        first is Fast <==> range.0 <= ms && ms < range.1,
        range.1 == cal.v2,
{
}

} // verus!
