//! Numbers and texts in byte strings.
use vstd::prelude::*;
use vstd::utf8::{decode_utf8, valid_utf8};

use crate::text::{
    chars_of, text_between, trim, trimmed, trimming_takes_what_is_around, white_space,
};

verus! {

/// A 16-bit number, the more significant byte first.
pub open spec fn be16(hi: u8, lo: u8) -> u16 {
    (hi * 256 + lo) as u16
}

/// A 16-bit number, the more significant byte first.
pub fn read_be16(hi: u8, lo: u8) -> (res: u16)
    ensures
        res == be16(hi, lo),
        res == hi * 256 + lo,
{
    hi as u16 * 256 + lo as u16
}

/// The more significant byte of a 16-bit number.
pub fn high(n: u16) -> (res: u8)
    ensures
        res == n / 256,
{
    (n / 256) as u8
}

/// The less significant byte of a 16-bit number.
pub fn low(n: u16) -> (res: u8)
    ensures
        res == n % 256,
{
    (n % 256) as u8
}

/// The number in the bytes of `s`, the least significant one first.
pub open spec fn le_value(s: Seq<u8>) -> nat
    decreases s.len(),
{
    if s.len() == 0 {
        0
    } else {
        s.first() as nat + 256 * le_value(s.skip(1))
    }
}

/// The 32-bit number at `at`, the least significant byte first.
pub open spec fn le32(s: Seq<u8>, at: int) -> nat {
    (s[at] + 0x100 * s[at + 1] + 0x1_0000 * s[at + 2] + 0x100_0000 * s[at + 3]) as nat
}

pub fn read_le16(s: &[u8], at: usize) -> (res: u16)
    requires
        at + 2 <= s.len(),
    ensures
        res == s@[at as int] + 0x100 * s@[at + 1],
{
    s[at] as u16 + 0x100 * s[at + 1] as u16
}

/// The 32-bit number at `at`, the least significant byte first.
pub fn read_le32(s: &[u8], at: usize) -> (res: u32)
    requires
        at + 4 <= s.len(),
    ensures
        res == le32(s@, at as int),
{
    s[at] as u32 + 0x100 * s[at + 1] as u32 + 0x1_0000 * s[at + 2] as u32 + 0x100_0000 * s[at + 3] as u32
}

/// The 64-bit number at `at`, the least significant byte first.
pub fn read_le64(s: &[u8], at: usize) -> (res: u64)
    requires
        at + 8 <= s.len(),
    ensures
        res == le32(s@, at as int) + 0x1_0000_0000 * le32(s@, at + 4),
{
    read_le32(s, at) as u64 + 0x1_0000_0000 * read_le32(s, at + 4) as u64
}

/// The sum of the bytes.
pub open spec fn byte_sum(s: Seq<u8>) -> nat
    decreases s.len(),
{
    if s.len() == 0 {
        0
    } else {
        byte_sum(s.drop_last()) + s.last() as nat
    }
}

pub proof fn lemma_byte_sum_push(s: Seq<u8>, b: u8)
    ensures
        byte_sum(s.push(b)) == byte_sum(s) + b,
{
    assert(s.push(b).drop_last() == s);
}

pub proof fn lemma_byte_sum_bound(s: Seq<u8>)
    ensures
        byte_sum(s) <= 255 * s.len(),
    decreases s.len(),
{
    if s.len() > 0 {
        lemma_byte_sum_bound(s.drop_last());
    }
}

/// The sum of `s[from..to]`, modulo 256.
pub fn sum_u8(s: &[u8], from: usize, to: usize) -> (res: u8)
    requires
        from <= to <= s@.len(),
    ensures
        res == byte_sum(s@.subrange(from as int, to as int)) % 256,
{
    let mut sum: u8 = 0;
    let mut i: usize = from;
    while i < to
        invariant
            from <= i <= to <= s@.len(),
            sum == byte_sum(s@.subrange(from as int, i as int)) % 256,
        decreases to - i,
    {
        assert(s@.subrange(from as int, i + 1) == s@.subrange(from as int, i as int).push(
            s@[i as int],
        ));
        proof {
            lemma_byte_sum_push(s@.subrange(from as int, i as int), s@[i as int]);
        }
        sum = sum.wrapping_add(s[i]);
        i += 1;
    }
    sum
}

/// A copy of `s[from..to]`.
pub fn copy_of(s: &[u8], from: usize, to: usize) -> (res: Vec<u8>)
    requires
        from <= to <= s@.len(),
    ensures
        res@ == s@.subrange(from as int, to as int),
{
    let mut out: Vec<u8> = Vec::new();
    let mut i: usize = from;
    while i < to
        invariant
            from <= i <= to <= s@.len(),
            out@ == s@.subrange(from as int, i as int),
        decreases to - i,
    {
        out.push(s[i]);
        i += 1;
        assert(s@.subrange(from as int, i as int) == s@.subrange(from as int, i - 1).push(
            s@[i - 1],
        ));
    }
    out
}

// ---------------------------------------------------------------------------
// Texts
// ---------------------------------------------------------------------------

pub open spec fn is_ascii_digit(b: u8) -> bool {
    48 <= b <= 57
}

/// The length of the run of ASCII digits at the start of `s`.
pub open spec fn digit_run(s: Seq<u8>) -> nat
    decreases s.len(),
{
    if s.len() > 0 && is_ascii_digit(s.first()) {
        1 + digit_run(s.skip(1))
    } else {
        0
    }
}

/// The number that a run of ASCII digits denotes.
pub open spec fn digit_bytes_value(s: Seq<u8>) -> nat
    decreases s.len(),
{
    if s.len() == 0 {
        0
    } else {
        10 * digit_bytes_value(s.drop_last()) + (s.last() - 48) as nat
    }
}

/// The number at the start of `s`; none if there is no digit or if it does not
/// fit in 32 bits.
pub open spec fn leading_number(s: Seq<u8>) -> Option<u32> {
    let v = digit_bytes_value(s.take(digit_run(s) as int));
    if digit_run(s) == 0 || v > u32::MAX {
        None
    } else {
        Some(v as u32)
    }
}

proof fn lemma_digit_run(s: Seq<u8>, n: int)
    requires
        0 <= n <= s.len(),
        forall|i: int| 0 <= i < n ==> is_ascii_digit(#[trigger] s[i]),
        n < s.len() ==> !is_ascii_digit(s[n]),
    ensures
        digit_run(s) == n,
    decreases n,
{
    if n > 0 {
        assert(is_ascii_digit(s[0]));
        let t = s.skip(1);
        assert forall|i: int| 0 <= i < n - 1 implies is_ascii_digit(#[trigger] t[i]) by {
            assert(t[i] == s[i + 1]);
        }
        lemma_digit_run(t, n - 1);
    }
}

/// Reads the number at the start of `s[from..to]`.
pub fn parse_leading_number(s: &[u8], from: usize, to: usize) -> (res: Option<u32>)
    requires
        from <= to <= s@.len(),
    ensures
        res == leading_number(s@.subrange(from as int, to as int)),
{
    let ghost t = s@.subrange(from as int, to as int);
    let mut n: u64 = 0;
    let mut over: bool = false;
    let mut i: usize = from;
    while i < to && 48 <= s[i] && s[i] <= 57
        invariant
            from <= i <= to <= s@.len(),
            t == s@.subrange(from as int, to as int),
            forall|j: int| 0 <= j < i - from ==> is_ascii_digit(#[trigger] t[j]),
            !over ==> n == digit_bytes_value(t.take(i - from)) && n <= u32::MAX,
            over ==> digit_bytes_value(t.take(i - from)) > u32::MAX,
        decreases to - i,
    {
        assert(t[i - from] == s@[i as int]);
        assert(t.take(i - from + 1).drop_last() == t.take(i - from));
        if !over {
            n = n * 10 + (s[i] - 48) as u64;
            if n > u32::MAX as u64 {
                over = true;
            }
        }
        i += 1;
    }
    proof {
        if i < to {
            assert(t[i - from] == s@[i as int]);
        }
        lemma_digit_run(t, i - from);
    }
    if i == from || over {
        None
    } else {
        Some(n as u32)
    }
}

/// `str::from_utf8`: a text exactly where the bytes are valid UTF-8, and then
/// the text that they encode.
#[verifier::external_body]
pub(crate) fn utf8_text(s: &[u8]) -> (res: Option<String>)
    ensures
        match res {
            Some(t) => valid_utf8(s@) && t@ == decode_utf8(s@),
            None => !valid_utf8(s@),
        },
{
    std::str::from_utf8(s).ok().map(|t| t.to_string())
}

/// `s` without trailing NUL characters.
pub open spec fn without_nuls(s: Seq<char>) -> Seq<char>
    decreases s.len(),
{
    if s.len() > 0 && s.last() == '\0' {
        without_nuls(s.drop_last())
    } else {
        s
    }
}

/// The text of a fixed-width field: padding NULs and white space taken off,
/// empty if it is not valid UTF-8.
pub open spec fn field_text(s: Seq<u8>) -> Seq<char> {
    if valid_utf8(s) {
        trimmed(without_nuls(decode_utf8(s)))
    } else {
        trimmed(without_nuls(seq![]))
    }
}

/// Reads the text of a fixed-width field.
pub fn read_field(s: &[u8]) -> (res: String)
    ensures
        res@ == field_text(s@),
{
    let whole: String = match utf8_text(s) {
        Some(t) => t,
        None => String::new(),
    };
    let v = chars_of(whole.as_str());
    let mut n: usize = v.len();
    assert(v@.take(n as int) == v@);
    while n > 0 && v[n - 1] == '\0'
        invariant
            n <= v@.len(),
            without_nuls(v@) == without_nuls(v@.take(n as int)),
        decreases n,
    {
        assert(v@.take(n as int).drop_last() == v@.take(n - 1));
        n -= 1;
    }
    assert(v@.subrange(0, n as int) == v@.take(n as int));
    trim(text_between(&v, 0, n).as_str())
}

/// A number written in digits reads back, whatever follows it that is not a digit.
pub proof fn digits_read_back(s: Seq<u8>, n: int)
    requires
        0 < n <= s.len(),
        forall|i: int| 0 <= i < n ==> is_ascii_digit(#[trigger] s[i]),
        n < s.len() ==> !is_ascii_digit(s[n]),
        digit_bytes_value(s.take(n)) <= u32::MAX,
    ensures
        leading_number(s) == Some(digit_bytes_value(s.take(n)) as u32),
        n == 1 ==> leading_number(s) == Some((s[0] - 48) as u32),
        n == 2 ==> leading_number(s) == Some((10 * (s[0] - 48) + (s[1] - 48)) as u32),
{
    lemma_digit_run(s, n);
    reveal_with_fuel(digit_bytes_value, 3);
    if n == 1 {
        assert(s.take(1).drop_last().len() == 0);
        assert(s.take(1).last() == s[0]);
    }
    if n == 2 {
        assert(s.take(2).drop_last() == s.take(1));
        assert(s.take(1).drop_last().len() == 0);
        assert(s.take(2).last() == s[1] && s.take(1).last() == s[0]);
    }
}

/// Bytes that begin with no digit hold no number.
pub proof fn no_digit_no_number(s: Seq<u8>)
    requires
        s.len() == 0 || !is_ascii_digit(s[0]),
    ensures
        leading_number(s) is None,
{
}

proof fn lemma_without_nuls(s: Seq<char>, n: nat)
    requires
        s.len() == 0 || s.last() != '\0',
    ensures
        without_nuls(s + Seq::new(n, |i: int| '\0')) == s,
    decreases n,
{
    let z = Seq::new(n, |i: int| '\0');
    if n > 0 {
        lemma_without_nuls(s, (n - 1) as nat);
        assert((s + z).last() == '\0');
        assert((s + z).drop_last() == s + Seq::new((n - 1) as nat, |i: int| '\0'));
    } else {
        assert(s + z == s);
    }
}

/// The text of a field is what it was filled with, without the zeros that pad it and
/// without white space around it.
pub proof fn padded_fields_read_back(s: Seq<u8>, text: Seq<char>, n: nat)
    requires
        valid_utf8(s),
        decode_utf8(s) == text + Seq::new(n, |i: int| '\0'),
        text.len() > 0,
        text.last() != '\0',
        !white_space(text.first()),
        !white_space(text.last()),
    ensures
        field_text(s) == text,
{
    lemma_without_nuls(text, n);
    trimming_takes_what_is_around(seq![], text, seq![]);
    assert(Seq::<char>::empty() + text + Seq::<char>::empty() == text);
}

/// Numbers of two, four and eight bytes are read with the least significant byte
/// first, and pairs with the more significant one first.
pub proof fn numbers_are_read_from_their_bytes(
    s: &[u8],
    at: usize,
    a: u16,
    b: u32,
    c: u64,
    d: u16,
)
    requires
        at + 8 <= s@.len(),
        call_ensures(read_le16, (s, at), a),
        call_ensures(read_le32, (s, at), b),
        call_ensures(read_le64, (s, at), c),
        call_ensures(read_be16, (s@[at as int], s@[at + 1]), d),
    ensures
        a == s@[at as int] + 0x100 * s@[at + 1],
        d == 0x100 * s@[at as int] + s@[at + 1],
        b == a + 0x1_0000 * (s@[at + 2] + 0x100 * s@[at + 3]),
        c == b + 0x1_0000_0000 * (s@[at + 4] + 0x100 * s@[at + 5] + 0x1_0000 * s@[at + 6]
            + 0x100_0000 * s@[at + 7]),
{
}

/// One digit or two, with what follows not a digit, read as their number.
pub(crate) proof fn lemma_small_number(s: Seq<u8>, n: int)
    requires
        1 <= n <= 2,
        n <= s.len(),
        forall|i: int| 0 <= i < n ==> is_ascii_digit(#[trigger] s[i]),
        n < s.len() ==> !is_ascii_digit(s[n]),
    ensures
        n == 1 ==> leading_number(s) == Some((s[0] - 48) as u32),
        n == 2 ==> leading_number(s) == Some((10 * (s[0] - 48) + (s[1] - 48)) as u32),
{
    assert(is_ascii_digit(s[0]));
    reveal_with_fuel(digit_bytes_value, 3);
    if n == 1 {
        assert(s.take(1).drop_last().len() == 0);
        assert(s.take(1).last() == s[0]);
    } else {
        assert(is_ascii_digit(s[1]));
        assert(s.take(2).drop_last() == s.take(1));
        assert(s.take(1).drop_last().len() == 0);
        assert(s.take(2).last() == s[1] && s.take(1).last() == s[0]);
    }
    digits_read_back(s, n);
}

/// The sum of bytes that follow one another is the sum of their sums.
pub proof fn sums_add_up(a: Seq<u8>, b: Seq<u8>)
    ensures
        byte_sum(a + b) == byte_sum(a) + byte_sum(b),
        b.len() == 1 ==> byte_sum(b) == b[0],
    decreases b.len(),
{
    reveal_with_fuel(byte_sum, 2);
    if b.len() == 0 {
        assert(a + b == a);
    } else {
        sums_add_up(a, b.drop_last());
        assert((a + b).drop_last() == a + b.drop_last());
    }
}

} // verus!
