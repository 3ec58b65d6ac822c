//! What all colorimeter drivers have in common: errors, identities and how a
//! device is found on the bus.
use vstd::prelude::*;

use crate::driver::measurement::ParseError;

verus! {

/// Datacolor's USB vendor number.
pub const DATACOLOR_VID: u16 = 0x085c;

/// X-Rite's USB vendor number.
pub const XRITE_VID: u16 = 0x0765;

/// What can go wrong on the USB bus.
#[derive(Clone, Copy, Debug, PartialEq, Eq, Structural)]
pub enum UsbError {
    Io,
    InvalidParam,
    Access,
    NoDevice,
    NotFound,
    Busy,
    Timeout,
    Overflow,
    Pipe,
    Interrupted,
    NoMem,
    NotSupported,
    BadDescriptor,
    Other,
}

/// What can go wrong with a colorimeter.
#[allow(inconsistent_fields)]
#[derive(Debug)]
pub enum Error {
    Usb(UsbError),
    /// No device of this vendor that the driver handles.
    NotFound(u16),
    /// No colorimeter on the bus.
    NoDevice,
    /// A known vendor's device that no driver handles.
    UnsupportedModel { vendor: &'static str, vid: u16, pid: u16 },
    /// The device may not be opened.
    AccessDenied { vid: u16, pid: u16 },
    ShortWrite { sent: usize, expected: usize },
    ShortRead { got: usize, expected: usize },
    NonceMismatch { sent: u16, got: u16 },
    /// The instrument's own error code.
    InstrumentError(u8),
    PayloadLenMismatch { reported: usize, expected: usize },
    ChecksumMismatch { computed: u8, advertised: u8 },
    BadVersionString(Vec<u8>),
    Parse(ParseError),
    IntegrationOutOfRange { got: u16, min: u16, max: u16 },
    CalIndexOutOfRange { got: u8, max: u8 },
    CommandEchoMismatch { sent: u8, got: u8 },
    /// The instrument refused every known unlock key.
    UnlockFailed,
    /// The light source is too bright.
    Saturated,
    /// The ambient diffuser is over the sensor.
    DiffuserInPath,
    /// The calibration data is unusable.
    BadCalibration,
}

impl Error {
    /// The error of opening a device: a refused access is told apart, since it
    /// has a remedy.
    pub fn at_open(e: UsbError, vid: u16, pid: u16) -> (res: Error)
        ensures
            res == if e == UsbError::Access {
                Error::AccessDenied { vid, pid }
            } else {
                Error::Usb(e)
            },
    {
        if e == UsbError::Access {
            Error::AccessDenied { vid, pid }
        } else {
            Error::Usb(e)
        }
    }
}

/// Identity of a device.
#[derive(Debug)]
pub struct DeviceInfo {
    pub vendor: String,
    pub model: String,
    pub serial: String,
    /// Version, major and minor.
    pub firmware: (u32, u32),
    /// USB product number, zero for other devices.
    pub usb_pid: u16,
}

/// One of a device's calibration modes.
#[derive(Clone, Copy, Debug, PartialEq, Eq, Structural)]
pub struct CalibrationId(pub u8);

/// A calibration mode and the vendor's name for it.
#[derive(Debug)]
pub struct CalibrationDesc {
    pub id: CalibrationId,
    pub name: String,
}

/// The modes of a device with one fixed calibration.
pub fn native_calibration() -> (res: Vec<CalibrationDesc>)
    ensures
        res@.len() == 1,
        res@[0].id == CalibrationId(0),
        res@[0].name@ == "Native"@,
{
    let mut v: Vec<CalibrationDesc> = Vec::new();
    v.push(CalibrationDesc { id: CalibrationId(0), name: "Native".to_owned() });
    v
}

/// Which tier of an adaptive measurement was kept.
#[derive(Clone, Copy, Debug, PartialEq, Eq, Structural)]
pub enum AdaptiveTier {
    /// There was no fast tier: one burst at the default exposure.
    SingleFull,
    /// The fast burst passed the trust check.
    Fast,
    /// The fast burst did not, and a burst at the default exposure followed.
    EscalatedFull,
}

/// When the dark baseline is taken anew in a run of readings.
#[derive(Clone, Copy, Debug, PartialEq, Eq, Structural)]
pub enum ResetDiscipline {
    /// Before every reading.
    AutoZeroEach,
    /// Once, before the first one.
    BurstOnce,
}

/// One step of a run of readings.
#[derive(Clone, Copy, Debug, PartialEq, Eq, Structural)]
pub enum ReadingStep {
    Reset,
    Read,
}

/// The steps of `n` readings.
pub open spec fn reading_steps(n: nat, discipline: ResetDiscipline) -> Seq<ReadingStep>
    decreases n,
{
    if n == 0 {
        seq![]
    } else if discipline == ResetDiscipline::AutoZeroEach {
        reading_steps((n - 1) as nat, discipline).push(ReadingStep::Reset).push(ReadingStep::Read)
    } else if n == 1 {
        seq![ReadingStep::Reset, ReadingStep::Read]
    } else {
        reading_steps((n - 1) as nat, discipline).push(ReadingStep::Read)
    }
}

/// Lists the steps of `n` readings: nothing at all for none, a reset before
/// each, or one reset before the first.
pub fn plan_readings(n: usize, discipline: ResetDiscipline) -> (res: Vec<ReadingStep>)
    ensures
        res@ == reading_steps(n as nat, discipline),
{
    let mut out: Vec<ReadingStep> = Vec::new();
    let mut i: usize = 0;
    while i < n
        invariant
            i <= n,
            out@ == reading_steps(i as nat, discipline),
        decreases n - i,
    {
        if discipline == ResetDiscipline::AutoZeroEach || i == 0 {
            out.push(ReadingStep::Reset);
        }
        out.push(ReadingStep::Read);
        i += 1;
        assert(out@ == reading_steps(i as nat, discipline));
    }
    out
}

/// How many of the steps are of a kind.
pub open spec fn count_steps(steps: Seq<ReadingStep>, kind: ReadingStep) -> nat
    decreases steps.len(),
{
    if steps.len() == 0 {
        0
    } else {
        count_steps(steps.drop_last(), kind) + if steps.last() == kind {
            1nat
        } else {
            0nat
        }
    }
}

/// A run of `n` readings reads `n` times, and resets before every reading or
/// once.
pub proof fn readings_follow_the_discipline(n: nat, discipline: ResetDiscipline)
    ensures
        ({
            let s = reading_steps(n, discipline);
            &&& count_steps(s, ReadingStep::Read) == n
            &&& count_steps(s, ReadingStep::Reset) == if n == 0 {
                0
            } else if discipline == ResetDiscipline::AutoZeroEach {
                n
            } else {
                1
            }
            &&& n > 0 ==> s.first() == ReadingStep::Reset
        }),
    decreases n,
{
    reveal_with_fuel(count_steps, 3);
    if n > 0 {
        readings_follow_the_discipline((n - 1) as nat, discipline);
        let s = reading_steps(n, discipline);
        let front = reading_steps((n - 1) as nat, discipline);
        if discipline == ResetDiscipline::AutoZeroEach {
            assert(s.drop_last() == front.push(ReadingStep::Reset));
            assert(s.drop_last().drop_last() == front);
            assert(n == 1 ==> front.len() == 0);
        } else if n == 1 {
            assert(s.drop_last().drop_last().len() == 0);
        } else {
            assert(s.drop_last() == front);
        }
    }
}

// ---------------------------------------------------------------------------
// Finding a device
// ---------------------------------------------------------------------------

/// Vendor and product number of a device on the bus.
#[derive(Clone, Copy, Debug, PartialEq, Eq, Structural)]
pub struct UsbId {
    pub vid: u16,
    pub pid: u16,
}

/// A device whose descriptor could be read and that a driver handles.
pub open spec fn handles(d: Option<UsbId>, vid: u16, candidates: Seq<u16>) -> bool {
    d matches Some(id) && id.vid == vid && candidates.contains(id.pid)
}

/// No device that a driver handles.
pub open spec fn none_handled(devices: Seq<Option<UsbId>>, vid: u16, candidates: Seq<u16>) -> bool {
    forall|j: int| 0 <= j < devices.len() ==> !handles(#[trigger] devices[j], vid, candidates)
}

/// The first device of a vendor among the candidates. A device whose descriptor
/// cannot be read is passed over.
pub fn first_match(devices: &Vec<Option<UsbId>>, vid: u16, candidates: &[u16]) -> (res: Option<
    usize,
>)
    ensures
        match res {
            Some(i) => {
                &&& i < devices@.len()
                &&& handles(devices@[i as int], vid, candidates@)
                &&& forall|j: int| 0 <= j < i ==> !handles(#[trigger] devices@[j], vid, candidates@)
            },
            None => forall|j: int|
                0 <= j < devices@.len() ==> !handles(#[trigger] devices@[j], vid, candidates@),
        },
        res is None ==> none_handled(devices@, vid, candidates@),
{
    let mut i: usize = 0;
    while i < devices.len()
        invariant
            i <= devices@.len(),
            forall|j: int| 0 <= j < i ==> !handles(#[trigger] devices@[j], vid, candidates@),
        decreases devices@.len() - i,
    {
        if let Some(id) = devices[i] {
            if id.vid == vid && contains_u16(candidates, id.pid) {
                return Some(i);
            }
        }
        i += 1;
    }
    None
}

fn contains_u16(s: &[u16], x: u16) -> (res: bool)
    ensures
        res == s@.contains(x),
{
    let mut i: usize = 0;
    while i < s.len()
        invariant
            i <= s@.len(),
            forall|j: int| 0 <= j < i ==> s@[j] != x,
        decreases s@.len() - i,
    {
        if s[i] == x {
            assert(s@.contains(x));
            return true;
        }
        i += 1;
    }
    false
}

/// The drivers, in the order in which they are tried.
#[derive(Clone, Copy, Debug, PartialEq, Eq, Structural)]
pub enum Family {
    /// SpyderX2 and Spyder 2024.
    Spyder,
    /// The first SpyderX.
    SpyderX,
    /// i1Display Pro and its relatives.
    I1d3,
}

/// What to do after an attempt to open a device.
#[derive(Debug)]
pub enum OpenStep {
    /// The device is open.
    Use,
    /// Try this driver.
    Try(Family),
    /// No driver found a device: look at the bus to tell why.
    Diagnose,
    /// Give up.
    Fail(Error),
}

/// Decides what to do after a driver's attempt: a driver that finds nothing
/// gives way to the next, and any other error ends the search.
pub fn after_attempt(family: Family, outcome: Result<(), Error>) -> (res: OpenStep)
    ensures
        match outcome {
            Ok(_) => res is Use,
            Err(Error::NotFound(_)) => match family {
                Family::Spyder => res == OpenStep::Try(Family::SpyderX),
                Family::SpyderX => res == OpenStep::Try(Family::I1d3),
                Family::I1d3 => res is Diagnose,
            },
            Err(e) => res == OpenStep::Fail(e),
        },
{
    match outcome {
        Ok(_) => OpenStep::Use,
        Err(Error::NotFound(_)) => match family {
            Family::Spyder => OpenStep::Try(Family::SpyderX),
            Family::SpyderX => OpenStep::Try(Family::I1d3),
            Family::I1d3 => OpenStep::Diagnose,
        },
        Err(e) => OpenStep::Fail(e),
    }
}

/// A device of a known vendor.
pub open spec fn of_known_vendor(d: Option<UsbId>) -> bool {
    d matches Some(id) && (id.vid == DATACOLOR_VID || id.vid == XRITE_VID)
}

/// The first device of a known vendor.
pub open spec fn first_known(devices: Seq<Option<UsbId>>, i: int) -> bool {
    0 <= i < devices.len() && of_known_vendor(devices[i]) && forall|j: int|
        0 <= j < i ==> !of_known_vendor(#[trigger] devices[j])
}

/// Tells why no driver found a device: the first device of a known vendor is a
/// model that is not supported, and without one there is no instrument.
pub fn diagnose_bus(devices: &Vec<Option<UsbId>>) -> (res: Error)
    ensures
        (forall|j: int| 0 <= j < devices@.len() ==> !of_known_vendor(#[trigger] devices@[j])) ==> res
            is NoDevice,
        forall|i: int|
            0 <= i < devices@.len() && of_known_vendor(#[trigger] devices@[i]) && (forall|j: int|
                0 <= j < i ==> !of_known_vendor(#[trigger] devices@[j])) ==> (res matches
                Error::UnsupportedModel { vendor, vid, pid } && vid == devices@[i]->0.vid && pid
                == devices@[i]->0.pid && vendor@ == if vid == DATACOLOR_VID {
                "Datacolor"@
            } else {
                "X-Rite"@
            }),
        forall|i: int| #[trigger]
            first_known(devices@, i) ==> (res matches Error::UnsupportedModel { vendor, vid, pid }
                && vid == devices@[i]->0.vid && pid == devices@[i]->0.pid && vendor@ == if vid
                == DATACOLOR_VID {
                "Datacolor"@
            } else {
                "X-Rite"@
            }),
{
    let mut i: usize = 0;
    while i < devices.len()
        invariant
            i <= devices@.len(),
            forall|j: int| 0 <= j < i ==> !of_known_vendor(#[trigger] devices@[j]),
        decreases devices@.len() - i,
    {
        if let Some(id) = devices[i] {
            if id.vid == DATACOLOR_VID {
                assert(of_known_vendor(devices@[i as int]));
                return Error::UnsupportedModel { vendor: "Datacolor", vid: id.vid, pid: id.pid };
            }
            if id.vid == XRITE_VID {
                assert(of_known_vendor(devices@[i as int]));
                return Error::UnsupportedModel { vendor: "X-Rite", vid: id.vid, pid: id.pid };
            }
        }
        i += 1;
    }
    Error::NoDevice
}

/// A run of readings in steps: with a reset before each, reading `k` follows its own
/// reset; with one reset, all the readings follow it.
pub proof fn steps_of_a_run(n: nat, k: int)
    requires
        0 <= k < n,
    ensures
        ({
            let each = reading_steps(n, ResetDiscipline::AutoZeroEach);
            let once = reading_steps(n, ResetDiscipline::BurstOnce);
            &&& each.len() == 2 * n
            &&& each[2 * k] == ReadingStep::Reset
            &&& each[2 * k + 1] == ReadingStep::Read
            &&& once.len() == n + 1
            &&& once[0] == ReadingStep::Reset
            &&& once[k + 1] == ReadingStep::Read
        }),
    decreases n,
{
    reveal_with_fuel(reading_steps, 2);
    if k < n - 1 {
        steps_of_a_run((n - 1) as nat, k);
    } else if n > 1 {
        steps_of_a_run((n - 1) as nat, 0);
    }
}

/// The drivers are tried one after the other, the first SpyderX after the later
/// Spyders and the i1Display last; only a device that is not there leads on, and
/// any other error ends the search as it came.
pub proof fn drivers_are_tried_in_order(
    family: Family,
    vid: u16,
    e: Error,
    found: OpenStep,
    missing: OpenStep,
    failed: OpenStep,
)
    requires
        call_ensures(after_attempt, (family, Ok::<(), Error>(())), found),
        call_ensures(after_attempt, (family, Err::<(), Error>(Error::NotFound(vid))), missing),
        !(e is NotFound),
        call_ensures(after_attempt, (family, Err::<(), Error>(e)), failed),
    ensures
        found is Use,
        family == Family::Spyder ==> missing == OpenStep::Try(Family::SpyderX),
        family == Family::SpyderX ==> missing == OpenStep::Try(Family::I1d3),
        family == Family::I1d3 ==> missing is Diagnose,
        failed == OpenStep::Fail(e),
{
}

/// A device is found by its vendor and product numbers, and the first one on the bus
/// is taken.
pub proof fn the_first_device_is_taken(
    devices: &Vec<Option<UsbId>>,
    vid: u16,
    candidates: &[u16],
    res: Option<usize>,
    j: int,
)
    requires
        call_ensures(first_match, (devices, vid, candidates), res),
        0 <= j < devices@.len(),
    ensures
        ({
            let d = devices@[j];
            &&& res matches Some(i) ==> i < devices@.len() && (devices@[i as int] matches Some(id)
                && id.vid == vid && candidates@.contains(id.pid))
            &&& d is Some && d->0.vid == vid && candidates@.contains(d->0.pid) ==> (res matches Some(
                i,
            ) && i <= j)
        }),
{
    match res {
        Some(i) => {
            assert(handles(devices@[i as int], vid, candidates@));
            if j < i {
                assert(!handles(devices@[j], vid, candidates@));
            }
        },
        None => {
            assert(none_handled(devices@, vid, candidates@));
            assert(!handles(devices@[j], vid, candidates@));
        },
    }
}

/// A device that may not be opened is told apart from one with any other trouble.
pub proof fn denied_access_is_told_apart(e: UsbError, vid: u16, pid: u16, res: Error)
    requires
        call_ensures(Error::at_open, (e, vid, pid), res),
    ensures
        e == UsbError::Access <==> res is AccessDenied,
        res matches Error::AccessDenied { vid: v, pid: p } ==> v == vid && p == pid,
        e != UsbError::Access ==> res == Error::Usb(e),
{
}

/// Where a device of Datacolor's or X-Rite's is on the bus, the first of them is told,
/// with its numbers and its vendor's name. Without one there is no instrument.
pub proof fn buses_are_diagnosed_by_vendor(devices: &Vec<Option<UsbId>>, res: Error, i: int)
    requires
        call_ensures(diagnose_bus, (devices,), res),
        0 <= i < devices@.len(),
        forall|j: int|
            0 <= j < i ==> (#[trigger] devices@[j] matches Some(id) ==> id.vid != 0x085c && id.vid
                != 0x0765),
    ensures
        devices@[i] matches Some(id) ==> {
            &&& id.vid == 0x085c ==> (res matches Error::UnsupportedModel { vendor, vid, pid } && vendor@
                == "Datacolor"@ && vid == id.vid && pid == id.pid)
            &&& id.vid == 0x0765 ==> (res matches Error::UnsupportedModel { vendor, vid, pid } && vendor@
                == "X-Rite"@ && vid == id.vid && pid == id.pid)
        },
        i == devices@.len() - 1 && (devices@[i] matches Some(id) ==> id.vid != 0x085c && id.vid
            != 0x0765) ==> res is NoDevice,
{
    let d = devices@[i];
    assert forall|j: int| 0 <= j < i implies !of_known_vendor(#[trigger] devices@[j]) by {}
    if d is Some && (d->0.vid == 0x085c || d->0.vid == 0x0765) {
        assert(first_known(devices@, i));
    }
}

} // verus!
