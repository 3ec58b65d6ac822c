//! The 64-byte reports that commands and replies travel in.
use vstd::prelude::*;
use vstd::slice::slice_subrange;

use crate::driver::bytes::{le32, read_le16, read_le32};
use crate::driver::colorimeter::{native_calibration, CalibrationDesc, CalibrationId, Error};
use crate::driver::i1d3::eeprom::{ascii_field, stands_in};
use crate::text::{
    chars_of, decimal_reads_back, decimal_text, is_digit, lemma_decimal_digit, lemma_decimal_is_plain,
    lemma_first_piece, lemma_no_separator, parse_u64, pieces, split, text_between, unsigned_text,
    views,
};

verus! {

/// Product number of the family.
pub const I1D3_PID: u16 = 0x5020;

/// Commands.
#[derive(Clone, Copy, Debug, PartialEq, Eq, Structural)]
pub enum CommandCode {
    /// Product name.
    ProdName,
    /// Product type.
    ProdType,
    /// Firmware version.
    FirmVer,
    /// Lock status.
    Locked,
    /// Edge counts over an integration time.
    FreqMeas,
    /// Clock counts over a number of edges.
    PeriodMeas,
    /// Read internal memory.
    ReadIntEe,
    /// Read external memory.
    ReadExtEe,
    /// Position of the diffuser arm. The reply does not echo the command.
    GetDiffPos,
    /// Ask for an unlock challenge.
    LockChallenge,
    /// Send an unlock response.
    LockResponse,
}

impl CommandCode {
    /// The major command, the first byte of a report.
    pub open spec fn major_byte(self) -> u8 {
        match self {
            CommandCode::FreqMeas => 0x01,
            CommandCode::PeriodMeas => 0x02,
            CommandCode::ReadIntEe => 0x08,
            CommandCode::ReadExtEe => 0x12,
            CommandCode::GetDiffPos => 0x94,
            CommandCode::LockChallenge => 0x99,
            CommandCode::LockResponse => 0x9a,
            _ => 0,
        }
    }

    /// The minor command, the second byte of a report with major command 0.
    pub open spec fn minor_byte(self) -> u8 {
        match self {
            CommandCode::ProdName => 0x10,
            CommandCode::ProdType => 0x11,
            CommandCode::FirmVer => 0x12,
            CommandCode::Locked => 0x20,
            _ => 0,
        }
    }

    pub fn major(self) -> (res: u8)
        ensures
            res == self.major_byte(),
    {
        match self {
            CommandCode::FreqMeas => 0x01,
            CommandCode::PeriodMeas => 0x02,
            CommandCode::ReadIntEe => 0x08,
            CommandCode::ReadExtEe => 0x12,
            CommandCode::GetDiffPos => 0x94,
            CommandCode::LockChallenge => 0x99,
            CommandCode::LockResponse => 0x9a,
            _ => 0,
        }
    }

    pub fn minor(self) -> (res: u8)
        ensures
            res == self.minor_byte(),
    {
        match self {
            CommandCode::ProdName => 0x10,
            CommandCode::ProdType => 0x11,
            CommandCode::FirmVer => 0x12,
            CommandCode::Locked => 0x20,
            _ => 0,
        }
    }
}

/// Where the parameters of a command start in its report.
pub open spec fn params_at(cc: CommandCode) -> int {
    if cc.major_byte() == 0 {
        2
    } else {
        1
    }
}

/// The report of a command: the major command, the minor one where the major
/// one is 0, the parameters, and zeros.
pub open spec fn command_report(cc: CommandCode, params: Seq<u8>) -> Seq<u8> {
    Seq::new(
        64,
        |i: int|
            if i == 0 {
                cc.major_byte()
            } else if i < params_at(cc) {
                cc.minor_byte()
            } else if i < params_at(cc) + params.len() {
                params[i - params_at(cc)]
            } else {
                0
            },
    )
}

/// Builds the report of a command.
pub fn build_report(cc: CommandCode, params: &[u8]) -> (res: [u8; 64])
    requires
        params_at(cc) + params@.len() <= 64,
    ensures
        res@ == command_report(cc, params@),
{
    let mut send: [u8; 64] = [0u8;64];
    let major: u8 = cc.major();
    send[0] = major;
    let at: usize = if major == 0 {
        send[1] = cc.minor();
        2
    } else {
        1
    };
    let mut i: usize = 0;
    while i < params.len()
        invariant
            i <= params@.len(),
            at == params_at(cc),
            at + params@.len() <= 64,
            forall|k: int|
                0 <= k < 64 ==> #[trigger] send@[k] == if k == 0 {
                    cc.major_byte()
                } else if k < at {
                    cc.minor_byte()
                } else if k < at + i {
                    params@[k - at]
                } else {
                    0
                },
        decreases params@.len() - i,
    {
        send[at + i] = params[i];
        i += 1;
    }
    assert(send@ == command_report(cc, params@));
    send
}

/// Checks that a report went out whole.
pub fn check_sent(written: usize) -> (res: Result<(), Error>)
    ensures
        written == 64 ==> res is Ok,
        written != 64 ==> res == Err::<(), Error>(Error::ShortWrite { sent: written, expected: 64 }),
{
    if written != 64 {
        Err(Error::ShortWrite { sent: written, expected: 64 })
    } else {
        Ok(())
    }
}

/// What is wrong with a reply of `read` bytes to a command; nothing if it is in
/// order. A reply starts with a status byte and, but for one command, the major
/// command that it answers.
pub open spec fn report_problem(cc: CommandCode, recv: Seq<u8>, read: usize) -> Option<Error> {
    if read != 64 {
        Some(Error::ShortRead { got: read, expected: 64 })
    } else if recv[0] != 0 {
        Some(Error::InstrumentError(recv[0]))
    } else if cc != CommandCode::GetDiffPos && recv[1] != cc.major_byte() {
        Some(Error::CommandEchoMismatch { sent: cc.major_byte(), got: recv[1] })
    } else {
        None
    }
}

/// Checks a reply. After any error a stale reply has to be drained.
pub fn check_report(cc: CommandCode, recv: &[u8; 64], read: usize) -> (res: Result<(), Error>)
    ensures
        match res {
            Ok(_) => report_problem(cc, recv@, read) is None,
            Err(e) => report_problem(cc, recv@, read) == Some(e),
        },
{
    if read != 64 {
        return Err(Error::ShortRead { got: read, expected: 64 });
    }
    if recv[0] != 0 {
        return Err(Error::InstrumentError(recv[0]));
    }
    if cc != CommandCode::GetDiffPos && recv[1] != cc.major() {
        return Err(Error::CommandEchoMismatch { sent: cc.major(), got: recv[1] });
    }
    Ok(())
}

// ---------------------------------------------------------------------------
// Replies
// ---------------------------------------------------------------------------

/// Whether the instrument is locked.
pub fn is_locked(recv: &[u8; 64]) -> (res: bool)
    ensures
        res == (recv@[2] == 0 && recv@[3] != 0),
{
    !(recv[2] != 0 || recv[3] == 0)
}

/// The product type; 2 is the ColorMunki Display.
pub fn product_type(recv: &[u8; 64]) -> (res: u16)
    ensures
        res == recv@[3] + 0x100 * recv@[4],
{
    read_le16(recv.as_slice(), 3)
}

/// Whether a product type is that of the ColorMunki Display.
pub fn is_munki_display(prod_type: u16) -> (res: bool)
    ensures
        res == (prod_type == 2),
{
    prod_type == 2
}

/// The text of a reply.
pub fn reply_text(recv: &[u8; 64]) -> (res: String)
    ensures
        stands_in(res@, recv@.subrange(2, 64)),
{
    ascii_field(slice_subrange(recv.as_slice(), 2, 64))
}

/// Whether the diffuser is over the sensor.
pub fn diffuser_over_sensor(recv: &[u8; 64]) -> (res: bool)
    ensures
        res == (recv@[1] != 0),
{
    recv[1] != 0
}

/// Checks that the diffuser is out of the way.
pub fn check_diffuser(over_sensor: bool) -> (res: Result<(), Error>)
    ensures
        over_sensor ==> res == Err::<(), Error>(Error::DiffuserInPath),
        !over_sensor ==> res is Ok,
{
    if over_sensor {
        Err(Error::DiffuserInPath)
    } else {
        Ok(())
    }
}

/// Selects a calibration; there is only the one.
pub fn select_calibration(id: CalibrationId) -> (res: Result<(), Error>)
    ensures
        id.0 == 0 ==> res is Ok,
        id.0 != 0 ==> res == Err::<(), Error>(Error::CalIndexOutOfRange { got: id.0, max: 0 }),
{
    if id.0 != 0 {
        Err(Error::CalIndexOutOfRange { got: id.0, max: 0 })
    } else {
        Ok(())
    }
}

/// The three numbers of a measurement reply.
pub fn channel_numbers(recv: &[u8; 64]) -> (res: [u32; 3])
    ensures
        res@[0] == le32(recv@, 2),
        res@[1] == le32(recv@, 6),
        res@[2] == le32(recv@, 10),
{
    let s: &[u8] = recv.as_slice();
    [read_le32(s, 2), read_le32(s, 6), read_le32(s, 10)]
}

/// Byte `k` of a number, the least significant one first.
pub open spec fn le_byte(n: int, k: int) -> u8 {
    (if k == 0 {
        n % 256
    } else if k == 1 {
        n / 0x100 % 256
    } else if k == 2 {
        n / 0x1_0000 % 256
    } else {
        n / 0x100_0000 % 256
    }) as u8
}

/// The parameters of a frequency measurement over a number of clocks.
pub open spec fn frequency_params(clocks: u32) -> Seq<u8> {
    Seq::new(
        23,
        |i: int|
            if i < 4 {
                le_byte(clocks as int, i)
            } else {
                0
            },
    )
}

/// The parameters of a frequency measurement.
pub fn freq_params(clocks: u32) -> (res: [u8; 23])
    ensures
        res@ == frequency_params(clocks),
{
    let mut p: [u8; 23] = [0u8;23];
    p[0] = (clocks % 256) as u8;
    p[1] = (clocks / 0x100 % 256) as u8;
    p[2] = (clocks / 0x1_0000 % 256) as u8;
    p[3] = (clocks / 0x100_0000 % 256) as u8;
    assert(p@ == frequency_params(clocks));
    p
}

/// The parameters of a period measurement of edges on the channels of a mask.
pub open spec fn edge_params(edges: Seq<u16>, mask: u8) -> Seq<u8> {
    seq![
        le_byte(edges[0] as int, 0),
        le_byte(edges[0] as int, 1),
        le_byte(edges[1] as int, 0),
        le_byte(edges[1] as int, 1),
        le_byte(edges[2] as int, 0),
        le_byte(edges[2] as int, 1),
        mask,
        0u8,
    ]
}

/// The parameters of a period measurement.
pub fn period_params(edges: &[u16; 3], mask: u8) -> (res: [u8; 8])
    ensures
        res@ == edge_params(edges@, mask),
{
    let p: [u8; 8] = [
        (edges[0] % 256) as u8,
        (edges[0] / 0x100 % 256) as u8,
        (edges[1] % 256) as u8,
        (edges[1] / 0x100 % 256) as u8,
        (edges[2] % 256) as u8,
        (edges[2] / 0x100 % 256) as u8,
        mask,
        0u8,
    ];
    assert(p@ == edge_params(edges@, mask));
    p
}

// ---------------------------------------------------------------------------
// Firmware version
// ---------------------------------------------------------------------------

/// `s` from its first digit on.
pub open spec fn from_first_digit(s: Seq<char>) -> Seq<char>
    decreases s.len(),
{
    if s.len() > 0 && !is_digit(s.first()) {
        from_first_digit(s.skip(1))
    } else {
        s
    }
}

/// The digits and points at the start of `s`.
pub open spec fn dotted_run(s: Seq<char>) -> Seq<char>
    decreases s.len(),
{
    if s.len() > 0 && (is_digit(s.first()) || s.first() == '.') {
        seq![s.first()] + dotted_run(s.skip(1))
    } else {
        seq![]
    }
}

/// A 32-bit number as text, 0 for anything else.
pub open spec fn number_or_zero(s: Seq<char>) -> u32 {
    match unsigned_text(s) {
        Some(n) if n <= u32::MAX => n as u32,
        _ => 0,
    }
}

/// The version in a firmware text: the first two numbers of its first run of
/// digits and points, 0 where there is none.
pub open spec fn version_in(s: Seq<char>) -> (u32, u32) {
    let parts = pieces(dotted_run(from_first_digit(s)), '.');
    (
        number_or_zero(parts[0]),
        if parts.len() > 1 {
            number_or_zero(parts[1])
        } else {
            0
        },
    )
}

fn read_number(s: &str) -> (res: u32)
    ensures
        res == number_or_zero(s@),
{
    match parse_u64(s) {
        Some(n) if n <= u32::MAX as u64 => n as u32,
        _ => 0,
    }
}

fn is_digit_or_dot(c: char) -> (res: bool)
    ensures
        res == (is_digit(c) || c == '.'),
{
    ('0' <= c && c <= '9') || c == '.'
}

/// Reads the version out of a firmware text such as `v1.3`.
pub fn parse_version(s: &str) -> (res: (u32, u32))
    ensures
        res == version_in(s@),
{
    let v = chars_of(s);
    let mut a: usize = 0;
    assert(v@.skip(0) == v@);
    while a < v.len() && !('0' <= v[a] && v[a] <= '9')
        invariant
            a <= v@.len(),
            from_first_digit(v@) == from_first_digit(v@.skip(a as int)),
        decreases v@.len() - a,
    {
        assert(v@.skip(a as int).skip(1) == v@.skip(a + 1));
        a += 1;
    }
    assert(from_first_digit(v@) == v@.skip(a as int));
    let mut b: usize = a;
    let ghost t = v@.skip(a as int);
    assert(v@.subrange(a as int, a as int) + dotted_run(t) == dotted_run(t));
    while b < v.len() && is_digit_or_dot(v[b])
        invariant
            a <= b <= v@.len(),
            t == v@.skip(a as int),
            dotted_run(t) == v@.subrange(a as int, b as int) + dotted_run(v@.skip(b as int)),
        decreases v@.len() - b,
    {
        assert(v@.skip(b as int).skip(1) == v@.skip(b + 1));
        assert(v@.subrange(a as int, b + 1) == v@.subrange(a as int, b as int).push(v@[b as int]));
        assert(v@.subrange(a as int, b as int) + (seq![v@[b as int]] + dotted_run(v@.skip(b + 1)))
            == v@.subrange(a as int, b + 1) + dotted_run(v@.skip(b + 1)));
        b += 1;
    }
    assert(dotted_run(t) == v@.subrange(a as int, b as int));
    let run = text_between(&v, a, b);
    let parts = split(run.as_str(), '.');
    proof {
        assert(views(parts@).len() == parts@.len());
        assert(pieces(run@, '.').len() >= 1);
    }
    assert(views(parts@)[0] == parts@[0]@);
    let major: u32 = read_number(parts[0].as_str());
    let minor: u32 = if parts.len() > 1 {
        assert(views(parts@)[1] == parts@[1]@);
        read_number(parts[1].as_str())
    } else {
        0
    };
    (major, minor)
}

// ---------------------------------------------------------------------------
// What the reports hold
// ---------------------------------------------------------------------------

/// A report is the command's code, in one byte or for the simple commands in two, then
/// its parameters in order, then zeros.
pub proof fn reports_carry_their_parameters(
    cc: CommandCode,
    params: &[u8],
    res: [u8; 64],
    i: int,
)
    requires
        params@.len() <= 62,
        call_ensures(build_report, (cc, params), res),
        0 <= i,
    ensures
        ({
            let at = if cc is ProdName || cc is ProdType || cc is FirmVer || cc is Locked {
                2int
            } else {
                1
            };
            &&& at == 2 <==> res@[0] == 0
            &&& cc is FreqMeas <==> res@[0] == 0x01
            &&& cc is PeriodMeas <==> res@[0] == 0x02
            &&& cc is ReadIntEe <==> res@[0] == 0x08
            &&& cc is ReadExtEe <==> res@[0] == 0x12
            &&& cc is GetDiffPos <==> res@[0] == 0x94
            &&& cc is LockChallenge <==> res@[0] == 0x99
            &&& cc is LockResponse <==> res@[0] == 0x9a
            &&& cc is ProdName ==> res@[1] == 0x10
            &&& cc is ProdType ==> res@[1] == 0x11
            &&& cc is FirmVer ==> res@[1] == 0x12
            &&& cc is Locked ==> res@[1] == 0x20
            &&& i < params@.len() ==> res@[at + i] == params@[i]
            &&& at + params@.len() <= i < 64 ==> res@[i] == 0
        }),
{
}

/// A reply is taken exactly if it came whole, has no error status and echoes the code
/// of its command; only the diffuser's position comes without the echo.
pub proof fn reports_are_checked(
    cc: CommandCode,
    recv: [u8; 64],
    read: usize,
    sent: [u8; 64],
    res: Result<(), Error>,
)
    requires
        call_ensures(check_report, (cc, &recv, read), res),
        call_ensures(build_report, (cc, &[]), sent),
    ensures
        res is Ok <==> read == 64 && recv@[0] == 0 && (cc is GetDiffPos || recv@[1] == sent@[0]),
        read != 64 ==> res == Err::<(), Error>(Error::ShortRead { got: read, expected: 64 }),
        read == 64 && recv@[0] != 0 ==> res == Err::<(), Error>(Error::InstrumentError(recv@[0])),
        read == 64 && recv@[0] == 0 && res is Err ==> res == Err::<(), Error>(
            Error::CommandEchoMismatch { sent: sent@[0], got: recv@[1] },
        ),
{
}

/// The three numbers of a measurement reply stand one after the other behind the
/// status and the echo, the least significant byte first.
pub proof fn channels_are_read_from_their_bytes(recv: [u8; 64], res: [u32; 3], i: int)
    requires
        call_ensures(channel_numbers, (&recv,), res),
        0 <= i < 3,
    ensures
        ({
            let k = 2 + 4 * i;
            res@[i] == recv@[k] + 256 * recv@[k + 1] + 65536 * recv@[k + 2] + 16777216 * recv@[k + 3]
        }),
{
}

/// The parameters of a frequency measurement are the clocks in four bytes and zeros,
/// and those of a period measurement the edges of each channel in two bytes and the
/// mask: all with the least significant byte first, so that they read back.
pub proof fn measurement_parameters_read_back(
    clocks: u32,
    edges: [u16; 3],
    mask: u8,
    f: [u8; 23],
    p: [u8; 8],
    i: int,
)
    requires
        call_ensures(freq_params, (clocks,), f),
        call_ensures(period_params, (&edges, mask), p),
        0 <= i < 3,
    ensures
        f@[0] + 256 * f@[1] + 65536 * f@[2] + 16777216 * f@[3] == clocks,
        forall|k: int| 4 <= k < 23 ==> #[trigger] f@[k] == 0,
        p@[2 * i] + 256 * p@[2 * i + 1] == edges@[i],
        p@[6] == mask,
        p@[7] == 0,
{
}

/// The lock, the product type and the diffuser are read from their bytes.
pub proof fn states_are_read_from_their_bytes(
    recv: [u8; 64],
    locked: bool,
    kind: u16,
    over: bool,
    munki: bool,
)
    requires
        call_ensures(is_locked, (&recv,), locked),
        call_ensures(product_type, (&recv,), kind),
        call_ensures(is_munki_display, (kind,), munki),
        call_ensures(diffuser_over_sensor, (&recv,), over),
    ensures
        locked <==> recv@[2] == 0 && recv@[3] > 0,
        kind % 256 == recv@[3] && kind / 256 == recv@[4],
        munki <==> recv@[3] == 2 && recv@[4] == 0,
        over <==> recv@[1] > 0,
{
}

proof fn lemma_from_first_digit(a: Seq<char>, s: Seq<char>)
    requires
        forall|i: int| 0 <= i < a.len() ==> !is_digit(#[trigger] a[i]),
        s.len() == 0 || is_digit(s.first()),
    ensures
        from_first_digit(a + s) == s,
    decreases a.len(),
{
    if a.len() > 0 {
        assert(!is_digit(a[0]));
        let rest = a.skip(1);
        assert forall|i: int| 0 <= i < rest.len() implies !is_digit(#[trigger] rest[i]) by {
            assert(rest[i] == a[i + 1]);
        }
        assert((a + s).skip(1) == rest + s);
        lemma_from_first_digit(rest, s);
    } else {
        assert(a + s == s);
    }
}

proof fn lemma_dotted_run(s: Seq<char>, b: Seq<char>)
    requires
        forall|i: int| 0 <= i < s.len() ==> is_digit(#[trigger] s[i]) || s[i] == '.',
        b.len() == 0 || !(is_digit(b.first()) || b.first() == '.'),
    ensures
        dotted_run(s + b) == s,
    decreases s.len(),
{
    if s.len() > 0 {
        let rest = s.skip(1);
        assert(is_digit(s[0]) || s[0] == '.');
        assert forall|i: int| 0 <= i < rest.len() implies is_digit(#[trigger] rest[i]) || rest[i]
            == '.' by {
            assert(rest[i] == s[i + 1]);
        }
        assert((s + b).skip(1) == rest + b);
        lemma_dotted_run(rest, b);
        assert(seq![s[0]] + rest == s);
    } else {
        assert(s + b == b);
    }
}

/// A version in a firmware text is found behind whatever comes before its first digit,
/// and read as the two numbers around its point.
pub proof fn versions_are_found_in_texts(before: Seq<char>, major: u32, minor: u32, after: Seq<char>)
    requires
        forall|i: int| 0 <= i < before.len() ==> !is_digit(#[trigger] before[i]),
        after.len() == 0 || !(is_digit(after.first()) || after.first() == '.'),
    ensures
        version_in(
            before + (decimal_text(major as nat) + seq!['.'] + decimal_text(minor as nat) + after),
        ) == (major, minor),
        version_in(before + (decimal_text(major as nat) + after)) == (major, 0u32),
        version_in(before) == (0u32, 0u32),
{
    let m = decimal_text(major as nat);
    let n = decimal_text(minor as nat);
    decimal_reads_back(major as nat);
    decimal_reads_back(minor as nat);
    lemma_decimal_is_plain(major as nat, '.');
    lemma_decimal_is_plain(minor as nat, '.');
    lemma_decimal_is_plain(major as nat, '+');
    lemma_decimal_is_plain(minor as nat, '+');
    assert forall|i: int| 0 <= i < m.len() implies is_digit(#[trigger] m[i]) by {
        lemma_decimal_digit(major as nat, i);
    }
    assert forall|i: int| 0 <= i < n.len() implies is_digit(#[trigger] n[i]) by {
        lemma_decimal_digit(minor as nat, i);
    }
    let d = m + seq!['.'] + n;
    assert(is_digit(m[0]));
    assert((d + after).first() == m[0] && (m + after).first() == m[0]);
    assert(m + seq!['.'] + n + after == d + after);
    lemma_from_first_digit(before, d + after);
    lemma_from_first_digit(before, m + after);
    assert forall|i: int| 0 <= i < d.len() implies is_digit(#[trigger] d[i]) || d[i] == '.' by {
        if i < m.len() {
            assert(d[i] == m[i]);
        } else if i > m.len() {
            assert(d[i] == n[i - m.len() - 1]);
        }
    }
    lemma_dotted_run(d, after);
    lemma_dotted_run(m, after);
    lemma_first_piece(m, n, '.');
    lemma_no_separator(n, '.');
    lemma_no_separator(m, '.');
    assert(pieces(d, '.') == seq![m] + seq![n]);
    assert(pieces(d, '.')[0] == m && pieces(d, '.')[1] == n);
    lemma_from_first_digit(before, seq![]);
    assert(before + Seq::<char>::empty() == before);
    assert(dotted_run(seq![]) == Seq::<char>::empty());
    lemma_no_separator(seq![], '.');
}

/// A calibration can be selected exactly if it is listed, and a refusal names the
/// number that was asked for and the greatest one that is listed.
pub proof fn listed_calibrations_are_selected(
    id: CalibrationId,
    listed: Vec<CalibrationDesc>,
    res: Result<(), Error>,
)
    requires
        call_ensures(native_calibration, (), listed),
        call_ensures(select_calibration, (id,), res),
    ensures
        res is Ok <==> exists|k: int| 0 <= k < listed@.len() && (#[trigger] listed@[k]).id == id,
        res matches Err(e) ==> (e matches Error::CalIndexOutOfRange { got, max } && got == id.0 && max
            + 1 == listed@.len()),
{
    assert(listed@[0].id.0 == 0);
    if id.0 == 0 {
        assert(listed@[0].id == id);
    }
}

} // verus!
