//! Unlocking: the instrument answers measurement commands only after it got a
//! response made of its challenge and a key.
use vstd::prelude::*;

use crate::driver::colorimeter::Error;

verus! {

/// An unlock key and the variant of the instrument that it belongs to.
#[derive(Clone, Copy, Debug)]
pub struct UnlockKey {
    pub name: &'static str,
    /// The two words of the key.
    pub key: [u32; 2],
}

/// How many keys there are.
pub const NUM_KEYS: usize = 11;

/// Key number `i`.
pub open spec fn key_words(i: int) -> (u32, u32) {
    if i == 0 {
        (0xe962_2e9f, 0x8d63_e133)
    } else if i == 1 {
        (0xe01e_6e0a, 0x2574_62de)
    } else if i == 2 {
        (0xcaa6_2b2c, 0x3081_5b61)
    } else if i == 3 {
        (0xa911_9479, 0x5b16_8761)
    } else if i == 4 {
        (0x160e_b6ae, 0x1444_0e70)
    } else if i == 5 {
        (0x291e_41d7, 0x5193_7bdd)
    } else if i == 6 {
        (0x1abf_ae03, 0xf25a_c8e8)
    } else if i == 7 {
        (0x828c_43e9, 0xcbb8_a8ed)
    } else if i == 8 {
        (0xe8d1_a980, 0xd146_f7ad)
    } else if i == 9 {
        (0x171a_e295, 0x2e5c_7664)
    } else {
        (0x64d8_c546, 0x4b24_b4a7)
    }
}

/// The variant that key number `i` belongs to.
pub open spec fn key_name(i: int) -> Seq<char> {
    if i == 0 {
        "i1Display Pro"@
    } else if i == 1 {
        "ColorMunki Display"@
    } else if i == 2 {
        "i1Display Pro (OEM)"@
    } else if i == 3 {
        "NEC SpectraSensor Pro"@
    } else if i == 4 {
        "Quato Silver Haze 3"@
    } else if i == 5 {
        "HP DreamColor"@
    } else if i == 6 {
        "Wacom DC"@
    } else if i == 7 {
        "Toshiba TPA-1"@
    } else if i == 8 {
        "Barco"@
    } else if i == 9 {
        "PhotoCrysta"@
    } else {
        "ViewSonic CS-XRi1"@
    }
}

/// Every known key, in the order in which they are tried.
pub fn unlock_keys() -> (res: Vec<UnlockKey>)
    ensures
        res@.len() == NUM_KEYS,
        forall|i: int|
            0 <= i < NUM_KEYS ==> (#[trigger] res@[i]).key@ == seq![key_words(i).0, key_words(i).1]
                && res@[i].name@ == key_name(i),
{
    let mut v: Vec<UnlockKey> = Vec::new();
    v.push(UnlockKey { name: "i1Display Pro", key: [0xe962_2e9f, 0x8d63_e133] });
    v.push(UnlockKey { name: "ColorMunki Display", key: [0xe01e_6e0a, 0x2574_62de] });
    v.push(UnlockKey { name: "i1Display Pro (OEM)", key: [0xcaa6_2b2c, 0x3081_5b61] });
    v.push(UnlockKey { name: "NEC SpectraSensor Pro", key: [0xa911_9479, 0x5b16_8761] });
    v.push(UnlockKey { name: "Quato Silver Haze 3", key: [0x160e_b6ae, 0x1444_0e70] });
    v.push(UnlockKey { name: "HP DreamColor", key: [0x291e_41d7, 0x5193_7bdd] });
    v.push(UnlockKey { name: "Wacom DC", key: [0x1abf_ae03, 0xf25a_c8e8] });
    v.push(UnlockKey { name: "Toshiba TPA-1", key: [0x828c_43e9, 0xcbb8_a8ed] });
    v.push(UnlockKey { name: "Barco", key: [0xe8d1_a980, 0xd146_f7ad] });
    v.push(UnlockKey { name: "PhotoCrysta", key: [0x171a_e295, 0x2e5c_7664] });
    v.push(UnlockKey { name: "ViewSonic CS-XRi1", key: [0x64d8_c546, 0x4b24_b4a7] });
    assert forall|i: int| 0 <= i < NUM_KEYS implies (#[trigger] v@[i]).key@ == seq![
        key_words(i).0,
        key_words(i).1,
    ] by {}
    v
}

/// How a byte of the response is made: a byte of one of the mixed words, with
/// one of the two sum bytes added or taken off.
#[derive(Clone, Copy, Debug, PartialEq, Eq, Structural)]
pub struct Mix {
    pub word: u8,
    pub byte: u8,
    pub sum: u8,
    pub plus: bool,
}

/// How byte `j` of the sixteen is made.
pub open spec fn mix(j: int) -> Mix {
    if j == 0 {
        Mix { word: 0, byte: 2, sum: 0, plus: true }
    } else if j == 1 {
        Mix { word: 2, byte: 1, sum: 1, plus: false }
    } else if j == 2 {
        Mix { word: 3, byte: 0, sum: 1, plus: true }
    } else if j == 3 {
        Mix { word: 1, byte: 2, sum: 0, plus: true }
    } else if j == 4 {
        Mix { word: 2, byte: 2, sum: 1, plus: false }
    } else if j == 5 {
        Mix { word: 3, byte: 2, sum: 0, plus: false }
    } else if j == 6 {
        Mix { word: 1, byte: 3, sum: 0, plus: false }
    } else if j == 7 {
        Mix { word: 0, byte: 0, sum: 1, plus: false }
    } else if j == 8 {
        Mix { word: 3, byte: 1, sum: 0, plus: true }
    } else if j == 9 {
        Mix { word: 2, byte: 3, sum: 1, plus: false }
    } else if j == 10 {
        Mix { word: 0, byte: 1, sum: 0, plus: true }
    } else if j == 11 {
        Mix { word: 1, byte: 1, sum: 1, plus: false }
    } else if j == 12 {
        Mix { word: 1, byte: 0, sum: 1, plus: true }
    } else if j == 13 {
        Mix { word: 3, byte: 3, sum: 1, plus: true }
    } else if j == 14 {
        Mix { word: 2, byte: 0, sum: 0, plus: true }
    } else {
        Mix { word: 0, byte: 3, sum: 0, plus: false }
    }
}

fn mix_of(j: usize) -> (res: Mix)
    requires
        j < 16,
    ensures
        res == mix(j as int),
{
    if j == 0 {
        Mix { word: 0, byte: 2, sum: 0, plus: true }
    } else if j == 1 {
        Mix { word: 2, byte: 1, sum: 1, plus: false }
    } else if j == 2 {
        Mix { word: 3, byte: 0, sum: 1, plus: true }
    } else if j == 3 {
        Mix { word: 1, byte: 2, sum: 0, plus: true }
    } else if j == 4 {
        Mix { word: 2, byte: 2, sum: 1, plus: false }
    } else if j == 5 {
        Mix { word: 3, byte: 2, sum: 0, plus: false }
    } else if j == 6 {
        Mix { word: 1, byte: 3, sum: 0, plus: false }
    } else if j == 7 {
        Mix { word: 0, byte: 0, sum: 1, plus: false }
    } else if j == 8 {
        Mix { word: 3, byte: 1, sum: 0, plus: true }
    } else if j == 9 {
        Mix { word: 2, byte: 3, sum: 1, plus: false }
    } else if j == 10 {
        Mix { word: 0, byte: 1, sum: 0, plus: true }
    } else if j == 11 {
        Mix { word: 1, byte: 1, sum: 1, plus: false }
    } else if j == 12 {
        Mix { word: 1, byte: 0, sum: 1, plus: true }
    } else if j == 13 {
        Mix { word: 3, byte: 3, sum: 1, plus: true }
    } else if j == 14 {
        Mix { word: 2, byte: 0, sum: 0, plus: true }
    } else {
        Mix { word: 0, byte: 3, sum: 0, plus: false }
    }
}

/// Byte `i` of the challenge proper, with its mask taken off.
pub open spec fn decoded(c: Seq<u8>, i: int) -> u8 {
    c[3] ^ c[35 + i]
}

/// Four bytes as a word, the most significant one first.
pub open spec fn word_of(a: u8, b: u8, c: u8, d: u8) -> u32 {
    (a * 0x100_0000 + b * 0x1_0000 + c * 0x100 + d) as u32
}

/// The two words that the challenge packs into.
pub open spec fn packed(c: Seq<u8>, i: int) -> u32 {
    if i == 0 {
        word_of(decoded(c, 3), decoded(c, 0), decoded(c, 4), decoded(c, 6))
    } else {
        word_of(decoded(c, 1), decoded(c, 7), decoded(c, 2), decoded(c, 5))
    }
}

/// The negative of a key word, modulo the word size.
pub open spec fn negated(k: u32) -> u32 {
    0u32.wrapping_sub(k)
}

/// The four mixed words: differences and products of the negated key and the
/// packed challenge.
pub open spec fn mixed(key: (u32, u32), c: Seq<u8>, w: int) -> u32 {
    if w == 0 {
        negated(key.0).wrapping_sub(packed(c, 1))
    } else if w == 1 {
        negated(key.1).wrapping_sub(packed(c, 0))
    } else if w == 2 {
        packed(c, 1).wrapping_mul(negated(key.0))
    } else {
        packed(c, 0).wrapping_mul(negated(key.1))
    }
}

/// Byte `k` of a word, counted from the least significant one.
pub open spec fn byte_of(w: u32, k: int) -> u8 {
    (if k == 0 {
        w % 256
    } else if k == 1 {
        w / 0x100 % 256
    } else if k == 2 {
        w / 0x1_0000 % 256
    } else {
        w / 0x100_0000
    }) as u8
}

pub open spec fn word_byte_sum(w: u32) -> nat {
    (byte_of(w, 0) + byte_of(w, 1) + byte_of(w, 2) + byte_of(w, 3)) as nat
}

/// The sum of the challenge's bytes and those of the negated key.
pub open spec fn input_sum(key: (u32, u32), c: Seq<u8>) -> nat {
    (decoded(c, 0) + decoded(c, 1) + decoded(c, 2) + decoded(c, 3) + decoded(c, 4) + decoded(c, 5)
        + decoded(c, 6) + decoded(c, 7) + word_byte_sum(negated(key.0)) + word_byte_sum(
        negated(key.1),
    )) as nat
}

/// The two low bytes of the sum.
pub open spec fn sum_byte(key: (u32, u32), c: Seq<u8>, i: int) -> u8 {
    if i == 0 {
        (input_sum(key, c) % 256) as u8
    } else {
        (input_sum(key, c) / 256 % 256) as u8
    }
}

/// Byte `j` of the sixteen that the response carries, under its mask.
pub open spec fn response_byte(key: (u32, u32), c: Seq<u8>, j: int) -> u8 {
    let m = mix(j);
    let b = byte_of(mixed(key, c, m.word as int), m.byte as int);
    let s = sum_byte(key, c, m.sum as int);
    c[2] ^ if m.plus {
        b.wrapping_add(s)
    } else {
        b.wrapping_sub(s)
    }
}

/// The response to a challenge: sixteen bytes at offset 24, and zeros around
/// them.
pub open spec fn response(key: (u32, u32), c: Seq<u8>) -> Seq<u8> {
    Seq::new(
        64,
        |i: int|
            if 24 <= i < 40 {
                response_byte(key, c, i - 24)
            } else {
                0
            },
    )
}

fn make_word(a: u8, b: u8, c: u8, d: u8) -> (res: u32)
    ensures
        res == word_of(a, b, c, d),
{
    a as u32 * 0x100_0000 + b as u32 * 0x1_0000 + c as u32 * 0x100 + d as u32
}

fn take_byte(w: u32, k: u8) -> (res: u8)
    requires
        k < 4,
    ensures
        res == byte_of(w, k as int),
{
    if k == 0 {
        (w % 256) as u8
    } else if k == 1 {
        (w / 0x100 % 256) as u8
    } else if k == 2 {
        (w / 0x1_0000 % 256) as u8
    } else {
        (w / 0x100_0000) as u8
    }
}

fn bytes_sum(w: u32) -> (res: u32)
    ensures
        res == word_byte_sum(w),
{
    take_byte(w, 0) as u32 + take_byte(w, 1) as u32 + take_byte(w, 2) as u32 + take_byte(w, 3) as u32
}

proof fn lemma_mix(j: int)
    ensures
        mix(j).word < 4,
        mix(j).byte < 4,
        mix(j).sum < 2,
{
}

/// Computes the response to a challenge.
pub fn unlock_response(key: [u32; 2], challenge: &[u8; 64]) -> (res: [u8; 64])
    ensures
        res@ == response((key@[0], key@[1]), challenge@),
{
    let key: (u32, u32) = (key[0], key[1]);
    let x: u8 = challenge[3];
    let d0: u8 = x ^ challenge[35];
    let d1: u8 = x ^ challenge[36];
    let d2: u8 = x ^ challenge[37];
    let d3: u8 = x ^ challenge[38];
    let d4: u8 = x ^ challenge[39];
    let d5: u8 = x ^ challenge[40];
    let d6: u8 = x ^ challenge[41];
    let d7: u8 = x ^ challenge[42];
    let ci0: u32 = make_word(d3, d0, d4, d6);
    let ci1: u32 = make_word(d1, d7, d2, d5);
    let nk0: u32 = 0u32.wrapping_sub(key.0);
    let nk1: u32 = 0u32.wrapping_sub(key.1);
    let words: [u32; 4] = [
        nk0.wrapping_sub(ci1),
        nk1.wrapping_sub(ci0),
        ci1.wrapping_mul(nk0),
        ci0.wrapping_mul(nk1),
    ];
    let sum: u32 = d0 as u32 + d1 as u32 + d2 as u32 + d3 as u32 + d4 as u32 + d5 as u32 + d6 as u32
        + d7 as u32 + bytes_sum(nk0) + bytes_sum(nk1);
    let s0: u8 = (sum % 256) as u8;
    let s1: u8 = (sum / 256 % 256) as u8;
    let ghost c = challenge@;
    assert(sum == input_sum(key, c));
    assert(forall|w: int| 0 <= w < 4 ==> #[trigger] words@[w] == mixed(key, c, w));
    let mut resp: [u8; 64] = [0u8;64];
    let mut j: usize = 0;
    while j < 16
        invariant
            j <= 16,
            c == challenge@,
            s0 == sum_byte(key, c, 0),
            s1 == sum_byte(key, c, 1),
            forall|w: int| 0 <= w < 4 ==> #[trigger] words@[w] == mixed(key, c, w),
            forall|i: int|
                0 <= i < 64 ==> #[trigger] resp@[i] == if 24 <= i < 24 + j {
                    response_byte(key, c, i - 24)
                } else {
                    0
                },
        decreases 16 - j,
    {
        let m = mix_of(j);
        proof {
            lemma_mix(j as int);
        }
        let b: u8 = take_byte(words[m.word as usize], m.byte);
        let s: u8 = if m.sum == 0 {
            s0
        } else {
            s1
        };
        let v: u8 = if m.plus {
            b.wrapping_add(s)
        } else {
            b.wrapping_sub(s)
        };
        resp[24 + j] = challenge[2] ^ v;
        j += 1;
    }
    assert(resp@ == response(key, challenge@));
    resp
}

/// The response is zero outside its sixteen bytes.
pub proof fn response_is_zero_outside_payload(key: (u32, u32), c: Seq<u8>, i: int)
    requires
        0 <= i < 64,
        !(24 <= i < 40),
    ensures
        response(key, c)[i] == 0,
{
}

/// Only bytes 2, 3 and 35 to 42 of a challenge make a difference.
pub proof fn response_depends_on_live_bytes(key: (u32, u32), c: Seq<u8>, d: Seq<u8>)
    requires
        c[2] == d[2],
        c[3] == d[3],
        forall|i: int| 35 <= i < 43 ==> #[trigger] c[i] == d[i],
    ensures
        response(key, c) == response(key, d),
{
    assert forall|i: int| 0 <= i < 8 implies #[trigger] decoded(c, i) == decoded(d, i) by {
        assert(c[35 + i] == d[35 + i]);
    }
    assert(packed(c, 0) == packed(d, 0) && packed(c, 1) == packed(d, 1));
    assert(forall|w: int| #[trigger] mixed(key, c, w) == mixed(key, d, w));
    assert(input_sum(key, c) == input_sum(key, d));
    assert forall|j: int| #[trigger] response_byte(key, c, j) == response_byte(key, d, j) by {
        lemma_mix(j);
        let m = mix(j);
        assert(mixed(key, c, m.word as int) == mixed(key, d, m.word as int));
        assert(sum_byte(key, c, m.sum as int) == sum_byte(key, d, m.sum as int));
    }
    assert(response(key, c) == response(key, d));
}

// ---------------------------------------------------------------------------
// Trying the keys
// ---------------------------------------------------------------------------

/// What an unlock attempt waits for, with the number of the key.
#[derive(Clone, Copy, Debug, PartialEq, Eq, Structural)]
pub enum UnlockState {
    /// A challenge.
    Challenge { key: usize },
    /// The reply to a response.
    Response { key: usize },
    /// The lock status, after a response that was taken.
    Status { key: usize },
    /// The key opened the instrument.
    Open { key: usize },
    /// No key did.
    Refused,
}

impl UnlockState {
    pub open spec fn wf(self) -> bool {
        match self {
            UnlockState::Challenge { key } => key < NUM_KEYS,
            UnlockState::Response { key } => key < NUM_KEYS,
            UnlockState::Status { key } => key < NUM_KEYS,
            UnlockState::Open { key } => key < NUM_KEYS,
            UnlockState::Refused => true,
        }
    }

    /// The state that goes on with the key after `key`.
    pub open spec fn after(key: usize) -> UnlockState {
        if key + 1 < NUM_KEYS {
            UnlockState::Challenge { key: (key + 1) as usize }
        } else {
            UnlockState::Refused
        }
    }

    fn next_key(key: usize) -> (res: UnlockState)
        requires
            key < NUM_KEYS,
        ensures
            res == Self::after(key),
            res.wf(),
    {
        if key + 1 < NUM_KEYS {
            UnlockState::Challenge { key: key + 1 }
        } else {
            UnlockState::Refused
        }
    }

    /// Starts with the first key.
    pub fn start() -> (res: UnlockState)
        ensures
            res == (UnlockState::Challenge { key: 0 }),
            res.wf(),
    {
        UnlockState::Challenge { key: 0 }
    }

    /// Makes the response to a challenge.
    pub fn challenged(self, challenge: &[u8; 64]) -> (res: (UnlockState, [u8; 64]))
        requires
            self.wf(),
            self is Challenge,
        ensures
            res.0 == (UnlockState::Response { key: self->Challenge_key }),
            res.0.wf(),
            res.1@ == response(key_words(self->Challenge_key as int), challenge@),
    {
        let key: usize = match self {
            UnlockState::Challenge { key } => key,
            _ => 0,
        };
        let keys = unlock_keys();
        (UnlockState::Response { key }, unlock_response(keys[key].key, challenge))
    }

    /// Takes note of the reply to a response: byte 2 tells whether it was taken.
    pub fn responded(self, reply: &[u8; 64]) -> (res: UnlockState)
        requires
            self.wf(),
            self is Response,
        ensures
            res.wf(),
            res == if reply@[2] == 0x77 {
                UnlockState::Status { key: self->Response_key }
            } else {
                UnlockState::after(self->Response_key)
            },
    {
        let key: usize = match self {
            UnlockState::Response { key } => key,
            _ => 0,
        };
        if reply[2] == 0x77 {
            UnlockState::Status { key }
        } else {
            Self::next_key(key)
        }
    }

    /// Takes note of the lock status after a response that was taken.
    pub fn status_read(self, locked: bool) -> (res: UnlockState)
        requires
            self.wf(),
            self is Status,
        ensures
            res.wf(),
            res == if locked {
                UnlockState::after(self->Status_key)
            } else {
                UnlockState::Open { key: self->Status_key }
            },
    {
        let key: usize = match self {
            UnlockState::Status { key } => key,
            _ => 0,
        };
        if locked {
            Self::next_key(key)
        } else {
            UnlockState::Open { key }
        }
    }

    /// The variant whose key opened the instrument, or the error that none did.
    pub fn outcome(self) -> (res: Result<&'static str, Error>)
        requires
            self.wf(),
            self is Open || self is Refused,
        ensures
            match self {
                UnlockState::Open { key } => res matches Ok(name) && name@ == key_name(key as int),
                _ => res == Err::<&'static str, Error>(Error::UnlockFailed),
            },
    {
        match self {
            UnlockState::Open { key } => {
                let keys = unlock_keys();
                Ok(keys[key].name)
            },
            _ => Err(Error::UnlockFailed),
        }
    }
}

/// A bound on the exchanges that are left: every reply brings the attempt
/// closer to its end.
pub open spec fn exchanges_left(s: UnlockState) -> int {
    match s {
        UnlockState::Challenge { key } => 3 * (NUM_KEYS - key),
        UnlockState::Response { key } => 3 * (NUM_KEYS - key) - 1,
        UnlockState::Status { key } => 3 * (NUM_KEYS - key) - 2,
        UnlockState::Open { .. } => 0,
        UnlockState::Refused => 0,
    }
}

/// Going on with the next key brings the attempt closer to its end.
pub proof fn unlocking_ends(key: usize)
    requires
        key < NUM_KEYS,
    ensures
        0 <= exchanges_left(UnlockState::after(key)) < exchanges_left(UnlockState::Status { key }),
        exchanges_left(UnlockState::Status { key }) < exchanges_left(UnlockState::Response { key }),
        exchanges_left(UnlockState::Response { key }) < exchanges_left(
            UnlockState::Challenge { key },
        ),
{
}

// ---------------------------------------------------------------------------
// Keys and responses
// ---------------------------------------------------------------------------

/// A key by the name of its variant and its two words.
pub open spec fn is_key(k: UnlockKey, name: Seq<char>, first: u32, second: u32) -> bool {
    k.name@ == name && k.key@.len() == 2 && k.key@[0] == first && k.key@[1] == second
}

/// The keys of the variants, in the order in which they are tried.
pub proof fn every_variant_has_its_key(keys: Vec<UnlockKey>)
    requires
        call_ensures(unlock_keys, (), keys),
    ensures
        ({
            &&& keys@.len() == 11
            &&& is_key(keys@[0], "i1Display Pro"@, 0xe962_2e9f, 0x8d63_e133)
            &&& is_key(keys@[1], "ColorMunki Display"@, 0xe01e_6e0a, 0x2574_62de)
            &&& is_key(keys@[2], "i1Display Pro (OEM)"@, 0xcaa6_2b2c, 0x3081_5b61)
            &&& is_key(keys@[3], "NEC SpectraSensor Pro"@, 0xa911_9479, 0x5b16_8761)
            &&& is_key(keys@[4], "Quato Silver Haze 3"@, 0x160e_b6ae, 0x1444_0e70)
            &&& is_key(keys@[5], "HP DreamColor"@, 0x291e_41d7, 0x5193_7bdd)
            &&& is_key(keys@[6], "Wacom DC"@, 0x1abf_ae03, 0xf25a_c8e8)
            &&& is_key(keys@[7], "Toshiba TPA-1"@, 0x828c_43e9, 0xcbb8_a8ed)
            &&& is_key(keys@[8], "Barco"@, 0xe8d1_a980, 0xd146_f7ad)
            &&& is_key(keys@[9], "PhotoCrysta"@, 0x171a_e295, 0x2e5c_7664)
            &&& is_key(keys@[10], "ViewSonic CS-XRi1"@, 0x64d8_c546, 0x4b24_b4a7)
        }),
{
    assert forall|i: int| 0 <= i < 11 implies (#[trigger] keys@[i]).key@ == seq![
        key_words(i).0,
        key_words(i).1,
    ] && keys@[i].name@ == key_name(i) by {}
    assert(keys@[0].key@.len() == 2 && keys@[1].key@.len() == 2 && keys@[2].key@.len() == 2
        && keys@[3].key@.len() == 2 && keys@[4].key@.len() == 2 && keys@[5].key@.len() == 2
        && keys@[6].key@.len() == 2 && keys@[7].key@.len() == 2 && keys@[8].key@.len() == 2
        && keys@[9].key@.len() == 2 && keys@[10].key@.len() == 2);
}

/// Every byte of the four mixed words goes into the response, and none twice.
pub proof fn every_mixed_byte_is_used_once(w: u8, b: u8)
    requires
        w < 4,
        b < 4,
    ensures
        exists|j: int| 0 <= j < 16 && (#[trigger] mix(j)).word == w && mix(j).byte == b,
        forall|j: int, k: int|
            0 <= j < 16 && 0 <= k < 16 && (#[trigger] mix(j)).word == (#[trigger] mix(k)).word
                && mix(j).byte == mix(k).byte ==> j == k,
{
    let j: int = if w == 0 {
        if b == 0 {
            7
        } else if b == 1 {
            10
        } else if b == 2 {
            0
        } else {
            15
        }
    } else if w == 1 {
        if b == 0 {
            12
        } else if b == 1 {
            11
        } else if b == 2 {
            3
        } else {
            6
        }
    } else if w == 2 {
        if b == 0 {
            14
        } else if b == 1 {
            1
        } else if b == 2 {
            4
        } else {
            9
        }
    } else {
        if b == 0 {
            2
        } else if b == 1 {
            8
        } else if b == 2 {
            5
        } else {
            13
        }
    };
    assert(mix(j).word == w && mix(j).byte == b);
}

/// The instrument is opened by the key whose response it took and after which it is
/// no longer locked; a response that it did not take, or a lock that stays, leads on
/// to the next key, and after the last the instrument stays locked.
pub proof fn keys_are_tried_in_turn(
    key: usize,
    reply: [u8; 64],
    locked: bool,
    answered: UnlockState,
    read: UnlockState,
)
    requires
        key < 11,
        call_ensures(UnlockState::responded, (UnlockState::Response { key }, &reply), answered),
        call_ensures(UnlockState::status_read, (UnlockState::Status { key }, locked), read),
    ensures
        reply@[2] == 0x77 <==> answered == (UnlockState::Status { key }),
        !locked <==> read == (UnlockState::Open { key }),
        reply@[2] != 0x77 && key < 10 ==> answered == (UnlockState::Challenge {
            key: (key + 1) as usize,
        }),
        reply@[2] != 0x77 && key == 10 ==> answered == UnlockState::Refused,
        locked && key < 10 ==> read == (UnlockState::Challenge { key: (key + 1) as usize }),
        locked && key == 10 ==> read == UnlockState::Refused,
{
}

/// A challenge is answered with the key under trial, and an instrument that opened is
/// named by the key that opened it.
pub proof fn challenges_are_answered_with_the_key(
    key: usize,
    challenge: [u8; 64],
    keys: Vec<UnlockKey>,
    direct: [u8; 64],
    res: (UnlockState, [u8; 64]),
    name: Result<&'static str, Error>,
)
    requires
        key < 11,
        call_ensures(unlock_keys, (), keys),
        call_ensures(unlock_response, (keys@[key as int].key, &challenge), direct),
        call_ensures(
            UnlockState::challenged,
            (UnlockState::Challenge { key }, &challenge),
            res,
        ),
        call_ensures(UnlockState::outcome, (UnlockState::Open { key },), name),
    ensures
        res.0 == (UnlockState::Response { key }),
        res.1@ == direct@,
        name matches Ok(n) && n@ == keys@[key as int].name@,
{
    assert(keys@[key as int].key@ == seq![key_words(key as int).0, key_words(key as int).1]);
}

} // verus!
