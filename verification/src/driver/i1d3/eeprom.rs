//! The instrument's two memories: reading them in pieces, and what they hold.
use vstd::prelude::*;
use vstd::slice::slice_subrange;
use vstd::utf8::{
    decode_utf8, encode_utf8, encode_utf8_decode_utf8, encode_utf8_valid_utf8, is_ascii_chars,
    is_ascii_chars_encode_utf8, valid_utf8,
};

use crate::driver::bytes::{byte_sum, le32, lemma_byte_sum_bound, lemma_byte_sum_push, read_le16, read_le32, read_le64};
use crate::driver::colorimeter::Error;
use crate::text::{same_text, trim, trimmed, trimming_takes_what_is_around};

verus! {

/// Samples of each sensor curve, at 1 nm from 380 nm on.
pub const SPECTRAL_BANDS: usize = 351;

/// The wavelength of the first sample, in nm.
pub const SPECTRAL_WL_SHORT: usize = 380;

// ---------------------------------------------------------------------------
// Texts
// ---------------------------------------------------------------------------

/// What `String::from_utf8_lossy` makes of some bytes.
pub uninterp spec fn lossy_text(s: Seq<u8>) -> Seq<char>;

/// `String::from_utf8_lossy`: the text that valid UTF-8 encodes. What becomes
/// of other bytes is named, not spelled out.
#[verifier::external_body]
fn lossy(s: &[u8]) -> (res: String)
    ensures
        res@ == lossy_text(s@),
        valid_utf8(s@) ==> res@ == decode_utf8(s@),
{
    String::from_utf8_lossy(s).into_owned()
}

/// The length of `s` up to its first zero.
pub open spec fn up_to_nul(s: Seq<u8>) -> int
    decreases s.len(),
{
    if s.len() == 0 || s.first() == 0 {
        0
    } else {
        1 + up_to_nul(s.skip(1))
    }
}

proof fn lemma_up_to_nul(s: Seq<u8>, n: int)
    requires
        0 <= n <= s.len(),
        forall|i: int| 0 <= i < n ==> #[trigger] s[i] != 0,
        n < s.len() ==> s[n] == 0,
    ensures
        up_to_nul(s) == n,
    decreases n,
{
    if n > 0 {
        assert(s[0] != 0);
        let t = s.skip(1);
        assert forall|i: int| 0 <= i < n - 1 implies #[trigger] t[i] != 0 by {
            assert(t[i] == s[i + 1]);
        }
        lemma_up_to_nul(t, n - 1);
    }
}

/// The bytes of a zero-terminated field that count.
pub open spec fn field_bytes(s: Seq<u8>) -> Seq<u8> {
    s.take(up_to_nul(s))
}

/// The text of a zero-terminated field.
pub open spec fn ascii_text(s: Seq<u8>) -> Seq<char> {
    trimmed(lossy_text(field_bytes(s)))
}

/// Whether a text is what stands in a zero-terminated field: where the field is
/// valid UTF-8, the text that it encodes, without the white space around it.
pub open spec fn stands_in(text: Seq<char>, s: Seq<u8>) -> bool {
    &&& text == ascii_text(s)
    &&& valid_utf8(field_bytes(s)) ==> text == trimmed(decode_utf8(field_bytes(s)))
}

/// Plain ASCII bytes are valid UTF-8, and encode the characters with their codes.
pub proof fn ascii_reads_as_it_stands(s: Seq<u8>)
    requires
        forall|i: int| 0 <= i < s.len() ==> #[trigger] s[i] < 128,
    ensures
        valid_utf8(s),
        decode_utf8(s) == Seq::new(s.len(), |i: int| s[i] as char),
{
    let chars = Seq::new(s.len(), |i: int| s[i] as char);
    assert(is_ascii_chars(chars)) by {
        assert forall|i: int| 0 <= i < chars.len() implies '\0' <= #[trigger] chars[i]
            <= '\u{7f}' by {
            assert(s[i] < 128);
        }
    }
    is_ascii_chars_encode_utf8(chars);
    encode_utf8_valid_utf8(chars);
    encode_utf8_decode_utf8(chars);
    assert(encode_utf8(chars) == s) by {
        assert forall|i: int| 0 <= i < s.len() implies #[trigger] encode_utf8(chars)[i] == s[i] by {
            assert(s[i] < 128);
            assert(chars[i] as u8 == encode_utf8(chars)[i]);
        }
    }
}

/// Reads a zero-terminated field.
pub fn ascii_field(bytes: &[u8]) -> (res: String)
    ensures
        stands_in(res@, bytes@),
{
    let mut n: usize = 0;
    while n < bytes.len() && bytes[n] != 0
        invariant
            n <= bytes@.len(),
            forall|i: int| 0 <= i < n ==> #[trigger] bytes@[i] != 0,
        decreases bytes@.len() - n,
    {
        n += 1;
    }
    proof {
        lemma_up_to_nul(bytes@, n as int);
    }
    assert(bytes@.subrange(0, n as int) == bytes@.take(n as int));
    trim(lossy(slice_subrange(bytes, 0, n)).as_str())
}

// ---------------------------------------------------------------------------
// Reading in pieces
// ---------------------------------------------------------------------------

/// Which of the memories.
#[derive(Clone, Copy, Debug, PartialEq, Eq, Structural)]
pub enum Memory {
    Internal,
    External,
}

impl Memory {
    /// Bytes in the memory.
    pub open spec fn size(self) -> nat {
        match self {
            Memory::Internal => 256,
            Memory::External => 8192,
        }
    }

    /// Bytes that one reply can carry.
    pub open spec fn piece(self) -> nat {
        match self {
            Memory::Internal => 60,
            Memory::External => 59,
        }
    }

    /// Where the data starts in a reply.
    pub open spec fn data_at(self) -> int {
        match self {
            Memory::Internal => 4,
            Memory::External => 5,
        }
    }
}

/// A piece of a memory: where it starts and how long it is.
#[derive(Clone, Copy, Debug, PartialEq, Eq, Structural)]
pub struct Piece {
    pub addr: usize,
    pub len: usize,
}

/// The next piece to read once the first `done` bytes are there.
pub open spec fn next_piece(m: Memory, done: nat) -> Option<Piece> {
    if done >= m.size() {
        None
    } else if m.size() - done < m.piece() {
        Some(Piece { addr: done as usize, len: (m.size() - done) as usize })
    } else {
        Some(Piece { addr: done as usize, len: m.piece() as usize })
    }
}

/// The parameters of the command that reads a piece.
pub open spec fn piece_params(m: Memory, p: Piece) -> Seq<u8> {
    match m {
        Memory::Internal => seq![p.addr as u8, p.len as u8],
        Memory::External => seq![(p.addr / 256) as u8, (p.addr % 256) as u8, p.len as u8],
    }
}

/// A memory that is being read.
#[derive(Debug)]
pub struct MemoryRead {
    pub memory: Memory,
    /// What was read so far.
    pub image: Vec<u8>,
}

impl MemoryRead {
    pub fn start(memory: Memory) -> (res: MemoryRead)
        ensures
            res.memory == memory,
            res.image@.len() == 0,
    {
        MemoryRead { memory, image: Vec::new() }
    }

    /// The next piece to read, if any is left.
    pub fn next(&self) -> (res: Option<Piece>)
        ensures
            res == next_piece(self.memory, self.image@.len()),
    {
        let (size, piece): (usize, usize) = match self.memory {
            Memory::Internal => (256, 60),
            Memory::External => (8192, 59),
        };
        let done: usize = self.image.len();
        if done >= size {
            None
        } else if size - done < piece {
            Some(Piece { addr: done, len: size - done })
        } else {
            Some(Piece { addr: done, len: piece })
        }
    }

    /// The parameters of the command that reads the next piece.
    pub fn params(&self) -> (res: Vec<u8>)
        requires
            next_piece(self.memory, self.image@.len()) is Some,
        ensures
            res@ == piece_params(self.memory, next_piece(self.memory, self.image@.len())->0),
    {
        let mut v: Vec<u8> = Vec::new();
        if let Some(p) = self.next() {
            match self.memory {
                Memory::Internal => {
                    v.push(p.addr as u8);
                    v.push(p.len as u8);
                },
                Memory::External => {
                    v.push((p.addr / 256) as u8);
                    v.push((p.addr % 256) as u8);
                    v.push(p.len as u8);
                },
            }
            assert(v@ == piece_params(self.memory, p));
        }
        v
    }

    /// Adds the piece that a reply carries.
    pub fn take(&mut self, recv: &[u8; 64])
        requires
            next_piece(old(self).memory, old(self).image@.len()) is Some,
        ensures
            final(self).memory == old(self).memory,
            ({
                let m = old(self).memory;
                let p = next_piece(m, old(self).image@.len())->0;
                final(self).image@ == old(self).image@ + recv@.subrange(
                    m.data_at(),
                    m.data_at() + p.len,
                )
            }),
    {
        let at: usize = match self.memory {
            Memory::Internal => 4,
            Memory::External => 5,
        };
        let n: usize = match self.next() {
            Some(p) => p.len,
            None => 0,
        };
        let ghost before = self.image@;
        let mut i: usize = 0;
        assert(before + recv@.subrange(at as int, at as int) == before);
        while i < n
            invariant
                i <= n,
                at + n <= 64,
                self.memory == old(self).memory,
                self.image@ == before + recv@.subrange(at as int, at + i),
            decreases n - i,
        {
            self.image.push(recv[at + i]);
            i += 1;
            assert(recv@.subrange(at as int, at + i) == recv@.subrange(at as int, at + i - 1).push(
                recv@[at + i - 1],
            ));
            assert(self.image@ == before + recv@.subrange(at as int, at + i));
        }
    }
}

/// The pieces of a memory follow one another without gap and end at its end:
/// each brings the reading forward, and none goes past the size.
pub proof fn pieces_cover_the_memory(m: Memory, done: nat)
    requires
        done <= m.size(),
    ensures
        next_piece(m, done) is None <==> done == m.size(),
        next_piece(m, done) matches Some(p) ==> {
            &&& p.addr == done
            &&& 1 <= p.len <= m.piece()
            &&& done + p.len <= m.size()
        },
{
}

/// Reading in pieces gives the memory back: where the bytes read so far are
/// those that the memory starts with, and a reply carries the bytes of the next
/// piece, they still are with that piece added.
pub proof fn pieces_add_up(m: Memory, contents: Seq<u8>, done: nat, recv: Seq<u8>)
    requires
        contents.len() == m.size(),
        done <= m.size(),
        recv.len() == 64,
        next_piece(m, done) matches Some(p) ==> recv.subrange(m.data_at(), m.data_at() + p.len)
            == contents.subrange(p.addr as int, p.addr + p.len),
    ensures
        match next_piece(m, done) {
            Some(p) => contents.take(done as int) + recv.subrange(m.data_at(), m.data_at() + p.len)
                == contents.take(done + p.len),
            None => contents.take(done as int) == contents,
        },
{
    match next_piece(m, done) {
        Some(p) => {
            assert(contents.take(done as int) + contents.subrange(p.addr as int, p.addr + p.len)
                == contents.take(done + p.len));
        },
        None => {
            assert(contents.take(done as int) == contents);
        },
    }
}

// ---------------------------------------------------------------------------
// What the memories hold
// ---------------------------------------------------------------------------

/// The internal memory.
#[derive(Debug)]
pub struct InternalEeprom {
    pub serial: String,
    /// Hardware revision, such as `A-01`.
    pub version: String,
    /// Dark frequency per channel, in sixths of a microhertz; none if unset.
    pub black_level: [Option<u32>; 3],
}

/// The number at `at`, unless all its bits are set.
pub open spec fn set_number(s: Seq<u8>, at: int) -> Option<u32> {
    if le32(s, at) == 0xffff_ffff {
        None
    } else {
        Some(le32(s, at) as u32)
    }
}

fn read_set(s: &[u8], at: usize) -> (res: Option<u32>)
    requires
        at + 4 <= s.len(),
    ensures
        res == set_number(s@, at as int),
{
    let t: u32 = read_le32(s, at);
    if t == 0xffff_ffff {
        None
    } else {
        Some(t)
    }
}

/// Decodes the internal memory.
pub fn decode_internal(buf: &[u8]) -> (res: InternalEeprom)
    requires
        buf@.len() == 256,
    ensures
        stands_in(res.serial@, buf@.subrange(0x10, 0x24)),
        stands_in(res.version@, buf@.subrange(0x2C, 0x36)),
        res.black_level@ == seq![
            set_number(buf@, 4),
            set_number(buf@, 8),
            set_number(buf@, 12),
        ],
{
    let black_level: [Option<u32>; 3] = [read_set(buf, 4), read_set(buf, 8), read_set(buf, 12)];
    assert(black_level@ == seq![set_number(buf@, 4), set_number(buf@, 8), set_number(buf@, 12)]);
    InternalEeprom {
        serial: ascii_field(slice_subrange(buf, 0x10, 0x24)),
        version: ascii_field(slice_subrange(buf, 0x2C, 0x36)),
        black_level,
    }
}

/// The external memory, as far as it holds the calibration.
#[derive(Debug)]
pub struct ExternalEeprom {
    /// Calibration date as it is stored.
    pub cal_date_raw: u64,
    pub checksum_ok: bool,
    /// The sensor curves of the three channels one after the other, as
    /// single-precision patterns.
    pub sensitivity: Vec<u32>,
}

/// The sum of the calibration area up to `end`, modulo 65536.
pub open spec fn area_sum(s: Seq<u8>, end: int) -> nat {
    byte_sum(s.subrange(4, end)) % 65536
}

fn sum_area(buf: &[u8], end: usize) -> (res: u16)
    requires
        4 <= end <= 8192,
        buf@.len() == 8192,
    ensures
        res == area_sum(buf@, end as int),
{
    let mut sum: u32 = 0;
    let mut i: usize = 4;
    while i < end
        invariant
            4 <= i <= end <= 8192,
            buf@.len() == 8192,
            sum == byte_sum(buf@.subrange(4, i as int)),
        decreases end - i,
    {
        assert(buf@.subrange(4, i + 1) == buf@.subrange(4, i as int).push(buf@[i as int]));
        proof {
            lemma_byte_sum_push(buf@.subrange(4, i as int), buf@[i as int]);
            lemma_byte_sum_bound(buf@.subrange(4, i as int));
        }
        sum += buf[i] as u32;
        i += 1;
    }
    (sum % 65536) as u16
}

/// The recorded checksum matches one of the two areas it may cover.
pub open spec fn checksum_matches(s: Seq<u8>) -> bool {
    let recorded = s[2] + 0x100 * s[3];
    recorded == area_sum(s, 0x179A) || recorded == area_sum(s, 0x178E)
}

/// Decodes the external memory.
pub fn decode_external(buf: &[u8]) -> (res: ExternalEeprom)
    requires
        buf@.len() == 8192,
    ensures
        res.cal_date_raw == le32(buf@, 0x1E) + 0x1_0000_0000 * le32(buf@, 0x22),
        res.checksum_ok == checksum_matches(buf@),
        res.sensitivity@ == Seq::new(
            3 * SPECTRAL_BANDS as nat,
            |k: int| le32(buf@, 0x26 + 4 * k) as u32,
        ),
{
    let recorded: u16 = read_le16(buf, 2);
    let checksum_ok: bool = recorded == sum_area(buf, 0x179A) || recorded == sum_area(buf, 0x178E);
    let cal_date_raw: u64 = read_le64(buf, 0x1E);
    let mut sensitivity: Vec<u32> = Vec::new();
    let mut k: usize = 0;
    while k < 1053
        invariant
            k <= 1053,
            buf@.len() == 8192,
            sensitivity@ == Seq::new(k as nat, |k: int| le32(buf@, 0x26 + 4 * k) as u32),
        decreases 1053 - k,
    {
        sensitivity.push(read_le32(buf, 0x26 + 4 * k));
        k += 1;
        assert(sensitivity@ == Seq::new(k as nat, |k: int| le32(buf@, 0x26 + 4 * k) as u32));
    }
    ExternalEeprom { cal_date_raw, checksum_ok, sensitivity }
}

/// Decides whether calibration data can be used: only revision A-01 has a
/// checksum that can be relied on, and there a mismatch is an error.
pub fn check_calibration(checksum_ok: bool, version: &str) -> (res: Result<(), Error>)
    ensures
        !checksum_ok && version@ == "A-01"@ ==> res == Err::<(), Error>(Error::BadCalibration),
        checksum_ok || version@ != "A-01"@ ==> res is Ok,
{
    if !checksum_ok && same_text(version, "A-01") {
        Err(Error::BadCalibration)
    } else {
        Ok(())
    }
}

// ---------------------------------------------------------------------------
// What the bytes mean
// ---------------------------------------------------------------------------

/// A zero-terminated field of plain characters reads as them, whatever stands behind
/// the zero.
pub proof fn terminated_fields_read_back(bytes: &[u8], n: int, res: String, i: int)
    requires
        call_ensures(ascii_field, (bytes,), res),
        0 < n <= bytes@.len(),
        forall|i: int| 0 <= i < n ==> 33 <= #[trigger] bytes@[i] < 127,
        n < bytes@.len() ==> bytes@[n] == 0,
        0 <= i < n,
    ensures
        res@.len() == n,
        res@[i] as int == bytes@[i],
{
    lemma_up_to_nul(bytes@, n);
    let s = field_bytes(bytes@);
    assert(forall|i: int| 0 <= i < s.len() ==> #[trigger] s[i] == bytes@[i]);
    ascii_reads_as_it_stands(s);
    let t = decode_utf8(s);
    assert(t[0] == s[0] as char && t[n - 1] == s[n - 1] as char);
    trimming_takes_what_is_around(seq![], t, seq![]);
    assert(Seq::<char>::empty() + t + Seq::<char>::empty() == t);
}

/// The internal memory holds a dark level for each channel in four bytes, the least
/// significant first, where all bits set mean that there is none; then the serial
/// number and the revision.
pub proof fn internal_memory_is_read_from_its_bytes(buf: &[u8], res: InternalEeprom, i: int)
    requires
        buf@.len() == 256,
        call_ensures(decode_internal, (buf,), res),
        0 <= i < 3,
    ensures
        ({
            let k = 4 + 4 * i;
            let n = buf@[k] + 256 * buf@[k + 1] + 65536 * buf@[k + 2] + 16777216 * buf@[k + 3];
            &&& n == 0xffff_ffff ==> res.black_level@[i] is None
            &&& n != 0xffff_ffff ==> (res.black_level@[i] matches Some(b) && b == n)
        }),
        stands_in(res.serial@, buf@.subrange(16, 36)),
        stands_in(res.version@, buf@.subrange(44, 54)),
{
}

/// The external memory holds the date of the calibration and the curves of the three
/// channels, 351 numbers each, and a sum of the bytes of its calibration area over
/// one of two lengths.
pub proof fn external_memory_is_read_from_its_bytes(
    buf: &[u8],
    res: ExternalEeprom,
    ch: int,
    k: int,
)
    requires
        buf@.len() == 8192,
        call_ensures(decode_external, (buf,), res),
        0 <= ch < 3,
        0 <= k < 351,
    ensures
        ({
            let at = 38 + 4 * (351 * ch + k);
            let b = buf@;
            let recorded = b[2] + 256 * b[3];
            &&& res.sensitivity@.len() == 1053
            &&& res.sensitivity@[351 * ch + k] == b[at] + 256 * b[at + 1] + 65536 * b[at + 2]
                + 16777216 * b[at + 3]
            &&& res.checksum_ok <==> recorded == byte_sum(b.subrange(4, 6042)) % 65536 || recorded
                == byte_sum(b.subrange(4, 6030)) % 65536
            &&& res.cal_date_raw % 0x1_0000_0000 == b[30] + 256 * b[31] + 65536 * b[32] + 16777216
                * b[33]
            &&& res.cal_date_raw / 0x1_0000_0000 == b[34] + 256 * b[35] + 65536 * b[36] + 16777216
                * b[37]
        }),
{
    assert(0 <= 351 * ch + k < 1053);
}

/// The parameters of a read name its piece: where it starts, in one byte or two, and
/// how long it is. No piece is longer than a reply can carry.
pub proof fn reads_name_their_pieces(r: MemoryRead, params: Vec<u8>, next: Option<Piece>)
    requires
        r.image@.len() < r.memory.size(),
        call_ensures(MemoryRead::next, (&r,), next),
        call_ensures(MemoryRead::params, (&r,), params),
    ensures
        next matches Some(p) && {
            &&& p.addr == r.image@.len()
            &&& p.len > 0
            &&& r.memory == Memory::Internal ==> {
                &&& params@.len() == 2
                &&& params@[0] == p.addr
                &&& params@[1] == p.len
                &&& p.len <= 60 && p.addr + p.len <= 256
                &&& p.len == 60 || p.addr + p.len == 256
            }
            &&& r.memory == Memory::External ==> {
                &&& params@.len() == 3
                &&& 256 * params@[0] + params@[1] == p.addr
                &&& params@[2] == p.len
                &&& p.len <= 59 && p.addr + p.len <= 8192
                &&& p.len == 59 || p.addr + p.len == 8192
            }
        },
{
}

/// The data of a reply goes up to its end, behind a head of four bytes or five.
pub proof fn replies_are_full_of_data(m: Memory)
    ensures
        m.data_at() + m.piece() == 64,
        m == Memory::Internal ==> m.data_at() == 4,
        m == Memory::External ==> m.data_at() == 5,
{
}

} // verus!
