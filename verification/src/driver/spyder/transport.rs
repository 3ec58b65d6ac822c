//! Framing of the Spyder family's commands.
//!
//! A request is the opcode, a nonce, the payload's length and the payload; a
//! reply echoes the nonce, then holds an error code, the payload's length and
//! the payload. Two-byte numbers have the more significant byte first.
use vstd::prelude::*;

use crate::driver::bytes::{be16, byte_sum, copy_of, high, low, read_be16, sum_u8};
use crate::driver::colorimeter::Error;

verus! {

/// Bytes in front of every payload, in both directions.
pub const HEADER_LEN: usize = 5;

/// Endpoint for requests.
pub const EP_OUT: u8 = 0x01;

/// Endpoint for replies.
pub const EP_IN: u8 = 0x81;

/// Product number of the first SpyderX.
pub const SPYDERX: u16 = 0x0a00;

/// Product number of the SpyderX2.
pub const SPYDERX2: u16 = 0x0a0a;

/// Product number of the Spyder 2024 line.
pub const SPYDER_2024: u16 = 0x0a0b;

/// The control request that resets a device, and how long to wait after it.
#[derive(Clone, Copy, Debug, PartialEq, Eq, Structural)]
pub struct ResetRequest {
    pub request_type: u8,
    pub request: u8,
    pub value: u16,
    pub index: u16,
    pub settle_ms: u64,
}

/// The reset that a device needs before it answers, and that zeroes it before a
/// measurement.
pub fn reset_request() -> (res: ResetRequest)
    ensures
        res == (ResetRequest { request_type: 0x41, request: 2, value: 2, index: 0, settle_ms: 500 }),
{
    ResetRequest { request_type: 0x41, request: 2, value: 2, index: 0, settle_ms: 500 }
}

/// A command to a device.
#[derive(Debug)]
pub struct Command {
    pub opcode: u8,
    pub payload: Vec<u8>,
    /// Bytes of the reply's payload.
    pub reply_size: usize,
    /// Whether the reply's payload ends in a checksum.
    pub checksummed: bool,
    pub timeout_ms: u64,
}

/// The bytes of a request.
pub open spec fn request_frame(opcode: u8, nonce: u16, payload: Seq<u8>) -> Seq<u8> {
    seq![
        opcode,
        (nonce / 256) as u8,
        (nonce % 256) as u8,
        (payload.len() % 65536 / 256) as u8,
        (payload.len() % 256) as u8,
    ] + payload
}

/// Frames a request.
pub fn frame_request(opcode: u8, nonce: u16, payload: &[u8]) -> (res: Vec<u8>)
    ensures
        res@ == request_frame(opcode, nonce, payload@),
{
    let len: u16 = (payload.len() % 65536) as u16;
    let mut out: Vec<u8> = Vec::new();
    out.push(opcode);
    out.push(high(nonce));
    out.push(low(nonce));
    out.push(high(len));
    out.push(low(len));
    let ghost header = out@;
    let mut i: usize = 0;
    assert(header + payload@.take(0) == header);
    while i < payload.len()
        invariant
            i <= payload@.len(),
            out@ == header + payload@.take(i as int),
        decreases payload@.len() - i,
    {
        out.push(payload[i]);
        i += 1;
        assert(payload@.take(i as int) == payload@.take(i - 1).push(payload@[i - 1]));
        assert(out@ == header + payload@.take(i as int));
    }
    assert(payload@.take(i as int) == payload@);
    assert(payload@.len() % 65536 % 256 == payload@.len() % 256);
    assert(out@ == request_frame(opcode, nonce, payload@));
    out
}

/// `rand::random`: any 16-bit number may come out.
#[verifier::external_body]
fn random_nonce() -> u16 {
    rand::random()
}

/// Frames a command with a fresh nonce, which the reply has to echo.
pub fn begin(command: &Command) -> (res: (u16, Vec<u8>))
    ensures
        res.1@ == request_frame(command.opcode, res.0, command.payload@),
{
    let nonce: u16 = random_nonce();
    (nonce, frame_request(command.opcode, nonce, command.payload.as_slice()))
}

/// Checks that a request went out whole.
pub fn check_written(written: usize, frame_len: usize) -> (res: Result<(), Error>)
    ensures
        written == frame_len ==> res is Ok,
        written != frame_len ==> res == Err::<(), Error>(
            Error::ShortWrite { sent: written, expected: frame_len },
        ),
{
    if written != frame_len {
        Err(Error::ShortWrite { sent: written, expected: frame_len })
    } else {
        Ok(())
    }
}

/// The checksum of a payload: the sum of all bytes but the last, modulo 256.
pub open spec fn checksum(payload: Seq<u8>) -> int {
    (byte_sum(payload.drop_last()) % 256) as int
}

/// What is wrong with a reply of `read` bytes in a buffer, looked for in the
/// order of the clauses; nothing if it is in order.
pub open spec fn reply_problem(
    nonce: u16,
    buf: Seq<u8>,
    read: usize,
    reply_size: usize,
    checksummed: bool,
) -> Option<Error> {
    let payload = buf.skip(5);
    if read != buf.len() {
        Some(Error::ShortRead { got: read, expected: buf.len() as usize })
    } else if be16(buf[0], buf[1]) != nonce {
        Some(Error::NonceMismatch { sent: nonce, got: be16(buf[0], buf[1]) })
    } else if buf[2] != 0 {
        Some(Error::InstrumentError(buf[2]))
    } else if be16(buf[3], buf[4]) != reply_size {
        Some(
            Error::PayloadLenMismatch {
                reported: be16(buf[3], buf[4]) as usize,
                expected: reply_size,
            },
        )
    } else if checksummed && payload.len() > 0 && checksum(payload) != payload.last() {
        Some(
            Error::ChecksumMismatch {
                computed: checksum(payload) as u8,
                advertised: payload.last(),
            },
        )
    } else {
        None
    }
}

/// Checks a reply and takes its payload out. `buf` is the receive buffer, large
/// enough for the header and the payload, and `read` what arrived in it.
pub fn check_reply(
    nonce: u16,
    buf: &[u8],
    read: usize,
    reply_size: usize,
    checksummed: bool,
) -> (res: Result<Vec<u8>, Error>)
    requires
        buf@.len() == HEADER_LEN + reply_size,
    ensures
        match res {
            Ok(v) => reply_problem(nonce, buf@, read, reply_size, checksummed) is None && v@
                == buf@.skip(5),
            Err(e) => reply_problem(nonce, buf@, read, reply_size, checksummed) == Some(e),
        },
{
    if read != buf.len() {
        return Err(Error::ShortRead { got: read, expected: buf.len() });
    }
    let echoed: u16 = read_be16(buf[0], buf[1]);
    if echoed != nonce {
        return Err(Error::NonceMismatch { sent: nonce, got: echoed });
    }
    if buf[2] != 0 {
        return Err(Error::InstrumentError(buf[2]));
    }
    let reported: usize = read_be16(buf[3], buf[4]) as usize;
    if reported != reply_size {
        return Err(Error::PayloadLenMismatch { reported, expected: reply_size });
    }
    let payload = copy_of(buf, 5, buf.len());
    assert(payload@ == buf@.skip(5));
    if checksummed && payload.len() > 0 {
        let n: usize = payload.len();
        let computed: u8 = sum_u8(payload.as_slice(), 0, n - 1);
        assert(payload@.subrange(0, n - 1) == payload@.drop_last());
        let advertised: u8 = payload[n - 1];
        if computed != advertised {
            return Err(Error::ChecksumMismatch { computed, advertised });
        }
    }
    Ok(payload)
}

/// The reply that a device in order gives.
pub open spec fn reply_frame(nonce: u16, payload: Seq<u8>) -> Seq<u8> {
    seq![
        (nonce / 256) as u8,
        (nonce % 256) as u8,
        0u8,
        (payload.len() / 256) as u8,
        (payload.len() % 256) as u8,
    ] + payload
}

/// The reply of a device in order is taken as it is: the nonce that was sent
/// is recognised, and the payload comes out unchanged.
pub proof fn good_replies_are_accepted(nonce: u16, payload: Seq<u8>, checksummed: bool)
    requires
        payload.len() < 65536,
        checksummed && payload.len() > 0 ==> checksum(payload) == payload.last(),
    ensures
        reply_problem(
            nonce,
            reply_frame(nonce, payload),
            (payload.len() + 5) as usize,
            payload.len() as usize,
            checksummed,
        ) is None,
        reply_frame(nonce, payload).skip(5) == payload,
{
    let f = reply_frame(nonce, payload);
    assert(f.skip(5) == payload);
    assert(be16(f[0], f[1]) == nonce);
    assert(be16(f[3], f[4]) == payload.len());
}

/// A reply to another request is not taken: what differs in the nonce is
/// refused, whatever else it holds.
pub proof fn stale_replies_are_refused(
    nonce: u16,
    other: u16,
    payload: Seq<u8>,
    checksummed: bool,
)
    requires
        payload.len() < 65536,
        nonce != other,
    ensures
        reply_problem(
            nonce,
            reply_frame(other, payload),
            (payload.len() + 5) as usize,
            payload.len() as usize,
            checksummed,
        ) == Some(Error::NonceMismatch { sent: nonce, got: other }),
{
    let f = reply_frame(other, payload);
    assert(be16(f[0], f[1]) == other);
}

/// A request carries its opcode, its nonce, the length of its payload and the
/// payload, so that a device can take it apart again.
pub proof fn requests_can_be_taken_apart(opcode: u8, nonce: u16, payload: &[u8], f: Vec<u8>, i: int)
    requires
        call_ensures(frame_request, (opcode, nonce, payload), f),
        payload@.len() < 65536,
        0 <= i < payload@.len(),
    ensures
        f@.len() == payload@.len() + 5,
        f@[0] == opcode,
        256 * f@[1] + f@[2] == nonce,
        256 * f@[3] + f@[4] == payload@.len(),
        f@[5 + i] == payload@[i],
{
}

/// A request that is begun is framed with the nonce that its reply has to echo.
pub proof fn begun_requests_carry_their_nonce(command: Command, res: (u16, Vec<u8>))
    requires
        call_ensures(begin, (&command,), res),
    ensures
        256 * res.1@[1] + res.1@[2] == res.0,
        res.1@[0] == command.opcode,
        res.1@.skip(5) == command.payload@,
{
    assert(res.1@.skip(5) == command.payload@);
}

/// A reply is taken exactly if it came whole, echoes the nonce, reports no error and
/// the length that was asked for, and has its checksum where it should: the sum of
/// the bytes in front of it, modulo 256. Its payload is what follows the header. The
/// first thing that is wrong with it is the error.
pub proof fn replies_are_checked(
    nonce: u16,
    buf: &[u8],
    read: usize,
    reply_size: usize,
    checksummed: bool,
    res: Result<Vec<u8>, Error>,
)
    requires
        buf@.len() == 5 + reply_size,
        call_ensures(check_reply, (nonce, buf, read, reply_size, checksummed), res),
    ensures
        ({
            let whole = read == buf@.len();
            let echoed = 256 * buf@[0] + buf@[1] == nonce;
            let fine = buf@[2] == 0;
            let sized = 256 * buf@[3] + buf@[4] == reply_size;
            let last = buf@[buf@.len() - 1];
            let sum = byte_sum(buf@.subrange(5, buf@.len() - 1)) % 256;
            let summed = !checksummed || reply_size == 0 || sum == last;
            &&& res is Ok <==> whole && echoed && fine && sized && summed
            &&& res matches Ok(v) ==> v@.len() == reply_size && forall|i: int|
                0 <= i < reply_size ==> #[trigger] v@[i] == buf@[5 + i]
            &&& !whole ==> res is Err && res->Err_0 is ShortRead
            &&& whole && !echoed ==> res is Err && res->Err_0 == (Error::NonceMismatch {
                sent: nonce,
                got: (256 * buf@[0] + buf@[1]) as u16,
            })
            &&& whole && echoed && !fine ==> res is Err && res->Err_0 == Error::InstrumentError(
                buf@[2],
            )
            &&& whole && echoed && fine && !sized ==> res is Err && res->Err_0 is PayloadLenMismatch
            &&& whole && echoed && fine && sized && !summed ==> res is Err && res->Err_0 == (
            Error::ChecksumMismatch { computed: sum as u8, advertised: last })
        }),
{
    let p = buf@.skip(5);
    if reply_size > 0 {
        assert(p.drop_last() == buf@.subrange(5, buf@.len() - 1));
        assert(p.last() == buf@[buf@.len() - 1]);
    }
}

} // verus!
